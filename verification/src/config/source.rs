//! A source is one named backend: a proxied upstream or a static file root.

use vstd::prelude::*;
use vstd::string::StringExecFns;

use crate::config::error::ConfigError;
use crate::config::location::{rules_view, Location, Rule};
use crate::config::proxy::{Proxy, ProxyRaw};
use crate::config::rewrite::{rewrites_view, Rewrite, RewriteRule};
use crate::config::static_server::{StaticServer, StaticServerRaw};
use crate::util::route::lowercase;
use crate::util::text::str_eq;

verus! {

/// What routing reads of a source, as a mathematical value.
pub struct SourceModel {
    /// The virtual host the source belongs to; `None` is the default host.
    pub sni: Option<Seq<char>>,
    /// The match rules; the source accepts a path if any of them does.
    pub rules: Seq<Rule>,
    /// The rewrite rules, in the order in which they are tried.
    pub rewrites: Seq<RewriteRule>,
    /// The names of the fallback sources, in the order in which they are tried.
    pub fallback: Seq<Seq<char>>,
}

/// The texts of a list of strings.
pub open spec fn names_view(names: Seq<String>) -> Seq<Seq<char>> {
    names.map_values(|n: String| n@)
}

/// The text of an optional string.
pub open spec fn opt_view(s: Option<String>) -> Option<Seq<char>> {
    match s {
        Some(s) => Some(s@),
        None => None,
    }
}

/// The rules of an optional list of rewrites; no list is an empty list.
pub open spec fn opt_rewrites_view(rewrites: Option<Vec<Rewrite>>) -> Seq<RewriteRule> {
    match rewrites {
        Some(list) => rewrites_view(list@),
        None => Seq::empty(),
    }
}

/// A source as the configuration file states it.
pub enum SourceRaw {
    Proxy(ProxyRaw),
    Static(StaticServerRaw),
}

/// One named backend of a listening port.
#[derive(Clone, Debug)]
pub enum Source {
    Proxy(Proxy),
    Static(StaticServer),
}

/// Whether a source stated in the file `path` is refused.
pub open spec fn source_refused(raw: SourceRaw, path: Seq<char>) -> bool {
    match raw {
        SourceRaw::Proxy(p) => p.refused(),
        SourceRaw::Static(s) => s.refused(path),
    }
}

/// Whether `r` is what `raw`, stated in the file `path`, converts to: a
/// source of the same kind, converted as that kind is.
pub open spec fn converts(raw: SourceRaw, path: Seq<char>, r: Result<Source, ConfigError>) -> bool {
    match raw {
        SourceRaw::Proxy(p) => match r {
            Ok(Source::Proxy(proxy)) => Proxy::converts(p, path, Ok(proxy)),
            Ok(Source::Static(_)) => false,
            Err(e) => Proxy::converts(p, path, Err(e)),
        },
        SourceRaw::Static(s) => match r {
            Ok(Source::Static(fixed)) => StaticServer::converts(s, path, Ok(fixed)),
            Ok(Source::Proxy(_)) => false,
            Err(e) => StaticServer::converts(s, path, Err(e)),
        },
    }
}

/// What is reported when a source is of no known kind.
pub open spec fn unknown_kind() -> Seq<char> {
    "unknown source type"@
}

/// Two error messages as one: the second on a line of its own after the
/// first, or the second alone where there is no first.
pub fn merge_err(e: Option<String>, e2: String) -> (r: String)
    ensures
        r@ == match e {
            None => e2@,
            Some(e) => e@ + "\n"@ + e2@,
        },
{
    match e {
        None => e2,
        Some(e) => e.concat("\n").concat(e2.as_str()),
    }
}

/// Whether a stated kind is the given one, whatever the case of its letters.
pub open spec fn kind_is(stated: Option<String>, kind: Seq<char>) -> bool {
    stated matches Some(s) && lowercase(s@) == kind
}

fn is_kind(stated: &Option<String>, kind: &str) -> (r: bool)
    ensures
        r == kind_is(*stated, kind@),
{
    match stated {
        Some(s) => str_eq(s.as_str().to_lowercase().as_str(), kind),
        None => false,
    }
}

/// What a source was read as: a proxied source or a static one.
pub enum Kind<P, S> {
    Proxy(P),
    Static(S),
}

/// Whether a source is taken as one of the given kind: it states no kind,
/// or that one.
pub open spec fn takes(stated: Option<String>, kind: Seq<char>) -> bool {
    stated is None || kind_is(stated, kind)
}

/// The message reported when a source can be read as neither kind: the
/// faults found in reading it as a proxied source and as a static one,
/// each only if the source states that kind or none; or that the kind is
/// unknown, where there is no such fault.
pub open spec fn faults<P, S>(
    stated: Option<String>,
    proxy: Result<P, String>,
    fixed: Result<S, String>,
) -> Seq<char> {
    let first: Option<Seq<char>> = match proxy {
        Err(e) => if takes(stated, "proxy"@) {
            Some(e@)
        } else {
            None
        },
        Ok(_) => None,
    };
    let second: Option<Seq<char>> = match fixed {
        Err(e) => if takes(stated, "static"@) {
            Some(e@)
        } else {
            None
        },
        Ok(_) => None,
    };
    match (first, second) {
        (None, None) => unknown_kind(),
        (Some(a), None) => a,
        (None, Some(b)) => b,
        (Some(a), Some(b)) => a + "\n"@ + b,
    }
}

impl SourceRaw {
    /// Decides the kind of a source from the kind it states and from the
    /// results of reading it as a proxied source and as a static one. A
    /// source that reads as a proxied one and states that kind or none is
    /// proxied; failing that, one that reads as a static one and states
    /// that kind or none is static; failing that too, the faults are
    /// reported.
    pub fn decide<P, S>(
        stated: Option<String>,
        proxy: Result<P, String>,
        fixed: Result<S, String>,
    ) -> (r: Result<Kind<P, S>, String>)
        ensures
            if proxy is Ok && takes(stated, "proxy"@) {
                r matches Ok(Kind::Proxy(p)) && Ok::<P, String>(p) == proxy
            } else if fixed is Ok && takes(stated, "static"@) {
                r matches Ok(Kind::Static(s)) && Ok::<S, String>(s) == fixed
            } else {
                r matches Err(e) && e@ == faults(stated, proxy, fixed)
            },
    {
        let as_proxy = stated.is_none() || is_kind(&stated, "proxy");
        let as_static = stated.is_none() || is_kind(&stated, "static");
        let mut err: Option<String> = None;
        match proxy {
            Ok(i) => {
                if as_proxy {
                    return Ok(Kind::Proxy(i));
                }
            },
            Err(e) => {
                if as_proxy {
                    err = Some(merge_err(err, e));
                }
            },
        }
        match fixed {
            Ok(i) => {
                if as_static {
                    return Ok(Kind::Static(i));
                }
            },
            Err(e) => {
                if as_static {
                    err = Some(merge_err(err, e));
                }
            },
        }
        match err {
            None => Err(String::from_str("unknown source type")),
            Some(message) => Err(message),
        }
    }
}

impl View for Source {
    type V = SourceModel;

    open spec fn view(&self) -> SourceModel {
        match self {
            Source::Proxy(p) => SourceModel {
                sni: opt_view(p.sni),
                rules: rules_view(p.location@),
                rewrites: opt_rewrites_view(p.rewrite),
                fallback: names_view(p.fallback@),
            },
            Source::Static(s) => SourceModel {
                sni: opt_view(s.sni),
                rules: rules_view(s.location@),
                rewrites: opt_rewrites_view(s.rewrite),
                fallback: names_view(s.fallback@),
            },
        }
    }
}

impl Source {
    /// Converts a source stated in the file `path`.
    pub fn from_raw(raw: SourceRaw, path: &str) -> (r: Result<Self, ConfigError>)
        ensures
            converts(raw, path@, r),
            r is Err <==> source_refused(raw, path@),
    {
        match raw {
            SourceRaw::Proxy(i) => match Proxy::from_raw(i, path) {
                Ok(p) => Ok(Source::Proxy(p)),
                Err(e) => Err(e),
            },
            SourceRaw::Static(i) => match StaticServer::from_raw(i, path) {
                Ok(s) => Ok(Source::Static(s)),
                Err(e) => Err(e),
            },
        }
    }

    /// The virtual host of the source, whichever kind of source it is.
    pub open spec fn sni(&self) -> Option<String> {
        match self {
            Source::Proxy(p) => p.sni,
            Source::Static(s) => s.sni,
        }
    }

    /// The match rules of the source.
    pub open spec fn location(&self) -> Vec<Location> {
        match self {
            Source::Proxy(p) => p.location,
            Source::Static(s) => s.location,
        }
    }

    /// The rewrite rules of the source.
    pub open spec fn rewrite(&self) -> Option<Vec<Rewrite>> {
        match self {
            Source::Proxy(p) => p.rewrite,
            Source::Static(s) => s.rewrite,
        }
    }

    /// The fallback list of the source.
    pub open spec fn fallback(&self) -> Vec<String> {
        match self {
            Source::Proxy(p) => p.fallback,
            Source::Static(s) => s.fallback,
        }
    }

    /// The headers that the source sets on requests.
    pub open spec fn headers_request(&self) -> Option<Vec<(String, String)>> {
        match self {
            Source::Proxy(p) => p.headers_request,
            Source::Static(s) => s.headers_request,
        }
    }

    /// The headers that the source sets on responses.
    pub open spec fn headers_response(&self) -> Option<Vec<(String, String)>> {
        match self {
            Source::Proxy(p) => p.headers_response,
            Source::Static(s) => s.headers_response,
        }
    }

    /// The virtual host of the source; none is the default host.
    pub fn sni_as_ref(&self) -> (r: &Option<String>)
        ensures
            *r == self.sni(),
            opt_view(*r) == self@.sni,
    {
        match self {
            Source::Proxy(p) => &p.sni,
            Source::Static(s) => &s.sni,
        }
    }

    /// The match rules of the source.
    pub fn location_as_ref(&self) -> (r: &Vec<Location>)
        ensures
            *r == self.location(),
            rules_view(r@) == self@.rules,
    {
        match self {
            Source::Proxy(p) => &p.location,
            Source::Static(s) => &s.location,
        }
    }

    /// The rewrite rules of the source, in the order in which they are tried.
    pub fn rewrite_as_ref(&self) -> (r: &Option<Vec<Rewrite>>)
        ensures
            *r == self.rewrite(),
            opt_rewrites_view(*r) == self@.rewrites,
    {
        match self {
            Source::Proxy(p) => &p.rewrite,
            Source::Static(s) => &s.rewrite,
        }
    }

    /// The names of the fallback sources, in the order in which they are tried.
    pub fn fallback_as_ref(&self) -> (r: &Vec<String>)
        ensures
            *r == self.fallback(),
            names_view(r@) == self@.fallback,
    {
        match self {
            Source::Proxy(p) => &p.fallback,
            Source::Static(s) => &s.fallback,
        }
    }

    /// The headers that the source sets on requests.
    pub fn headers_request_as_ref(&self) -> (r: &Option<Vec<(String, String)>>)
        ensures
            *r == self.headers_request(),
    {
        match self {
            Source::Proxy(p) => &p.headers_request,
            Source::Static(s) => &s.headers_request,
        }
    }

    /// The headers that the source sets on responses.
    pub fn headers_response_as_ref(&self) -> (r: &Option<Vec<(String, String)>>)
        ensures
            *r == self.headers_response(),
    {
        match self {
            Source::Proxy(p) => &p.headers_response,
            Source::Static(s) => &s.headers_response,
        }
    }

    /// Whether the source is a proxied upstream.
    pub fn is_proxy(&self) -> (r: bool)
        ensures
            r == (self is Proxy),
    {
        match self {
            Source::Proxy(_) => true,
            Source::Static(_) => false,
        }
    }

    /// Whether the source is a static file root.
    pub fn is_static(&self) -> (r: bool)
        ensures
            r == (self is Static),
    {
        match self {
            Source::Proxy(_) => false,
            Source::Static(_) => true,
        }
    }
}

} // verus!
