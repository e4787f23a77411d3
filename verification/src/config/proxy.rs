//! Proxied sources and the servers that hold sources.

use vstd::prelude::*;

use crate::config::error::ConfigError;
use crate::config::import_able::Imported;
use crate::config::location::{
    first_bad_location, is_location_error, parse_locations, rules_of, rules_view, Location,
};
use crate::config::rewrite::{
    first_bad_rewrite, is_rewrite_error, parse_rewrites, rewrites_match, Rewrite,
};
use crate::config::source::{converts, opt_view, source_refused, Source, SourceRaw};
use crate::util::route::lowercase;
use crate::util::text::{first_failing, lemma_first_failing_extend};

verus! {

/// A source that forwards requests to one upstream address.
#[derive(Clone, Debug)]
pub struct Proxy {
    /// Host name or IP address of the upstream.
    pub ip: String,
    /// Value that replaces the `Host` header, and the TLS server name.
    pub host: Option<String>,
    pub port: u16,
    /// Whether to connect with TLS.
    pub ssl: bool,
    /// The virtual host this source belongs to, in lower case.
    pub sni: Option<String>,
    pub location: Vec<Location>,
    pub rewrite: Option<Vec<Rewrite>>,
    /// Names of the sources to try, in order, when this one is unavailable.
    pub fallback: Vec<String>,
    pub headers_request: Option<Vec<(String, String)>>,
    pub headers_response: Option<Vec<(String, String)>>,
}

/// A proxied source as the configuration file states it.
pub struct ProxyRaw {
    pub source_type: Option<String>,
    pub ip: String,
    pub host: Option<String>,
    pub port: u16,
    pub ssl: bool,
    pub sni: Option<String>,
    pub location: Option<Vec<String>>,
    pub rewrite: Option<Vec<String>>,
    pub fallback: Option<Vec<String>>,
    pub headers_request: Option<Vec<(String, String)>>,
    pub headers_response: Option<Vec<(String, String)>>,
}

/// The certificate and the key of a TLS listener, by their paths.
#[derive(Clone, Debug)]
pub struct Ssl {
    pub cert: String,
    pub key: String,
}

/// The configuration of one listening port.
#[derive(Clone, Debug)]
pub struct Server {
    /// The sources with their names, in declaration order.
    pub source: Vec<(String, Source)>,
    pub ssl: Option<Ssl>,
    pub threads: Option<usize>,
    /// Whether the availability of sources is checked.
    pub check_status: bool,
    /// Milliseconds between two probes of an upstream.
    pub check_duration: u64,
}

/// One listening port as the configuration file states it, each source
/// with the path of the file it was read from.
pub struct ServerRaw {
    pub source: Vec<(String, Imported<SourceRaw>)>,
    pub ssl: Option<Ssl>,
    pub threads: Option<usize>,
    pub check_status: Option<bool>,
    pub check_duration: Option<u64>,
}

/// Milliseconds between two probes of an upstream, unless configured.
pub const DEFAULT_CHECK_DURATION: u64 = 1000;

/// The lower-case form of an optional host name.
pub open spec fn lowered(sni: Option<String>) -> Option<Seq<char>> {
    match sni {
        Some(s) => Some(lowercase(s@)),
        None => None,
    }
}

/// The lower-case form of an optional host name.
pub fn lower_sni(sni: Option<String>) -> (r: Option<String>)
    ensures
        opt_view(r) == lowered(sni),
{
    match sni {
        Some(s) => Some(s.as_str().to_lowercase()),
        None => None,
    }
}

/// The entries of a stated list; none where no list is stated.
pub open spec fn stated_or_empty(list: Option<Vec<String>>) -> Seq<String> {
    match list {
        Some(l) => l@,
        None => Seq::empty(),
    }
}

/// A stated list, or the empty list where none is stated.
pub fn list_or_empty(list: Option<Vec<String>>) -> (r: Vec<String>)
    ensures
        r@ == stated_or_empty(list),
{
    match list {
        Some(l) => l,
        None => Vec::new(),
    }
}

impl ProxyRaw {
    /// Whether the source is refused: whether one of its `location` or
    /// `rewrite` entries is.
    pub open spec fn refused(&self) -> bool {
        first_bad_location(self.location) is Some || first_bad_rewrite(self.rewrite) is Some
    }
}

impl Proxy {
    /// Whether `r` is what `raw`, stated in the file `path`, converts to.
    /// The first refused `location` entry is reported, else the first
    /// refused `rewrite` entry. Else the source is as stated, with its
    /// host name in lower case, its rules read from the entries, and an
    /// empty fallback list where none is stated.
    pub open spec fn converts(raw: ProxyRaw, path: Seq<char>, r: Result<Proxy, ConfigError>)
        -> bool {
        match (first_bad_location(raw.location), first_bad_rewrite(raw.rewrite)) {
            (Some(i), _) => r matches Err(e) && is_location_error(
                e,
                raw.location.unwrap()@[i]@,
                path,
            ),
            (None, Some(i)) => r matches Err(e) && is_rewrite_error(
                e,
                raw.rewrite.unwrap()@[i]@,
                path,
            ),
            (None, None) => {
                &&& r matches Ok(p)
                &&& p.ip == raw.ip
                &&& p.host == raw.host
                &&& p.port == raw.port
                &&& p.ssl == raw.ssl
                &&& opt_view(p.sni) == lowered(raw.sni)
                &&& rules_view(p.location@) == rules_of(raw.location)
                &&& rewrites_match(p.rewrite, raw.rewrite)
                &&& p.fallback@ == stated_or_empty(raw.fallback)
                &&& p.headers_request == raw.headers_request
                &&& p.headers_response == raw.headers_response
            },
        }
    }

    /// Converts a proxied source stated in the file `path`.
    pub fn from_raw(raw: ProxyRaw, path: &str) -> (r: Result<Self, ConfigError>)
        ensures
            Proxy::converts(raw, path@, r),
            r is Err <==> raw.refused(),
    {
        let sni = lower_sni(raw.sni);
        let location = match parse_locations(raw.location, path) {
            Ok(l) => l,
            Err(e) => {
                return Err(e);
            },
        };
        let rewrite = match parse_rewrites(raw.rewrite, path) {
            Ok(r) => r,
            Err(e) => {
                return Err(e);
            },
        };
        Ok(
            Self {
                ip: raw.ip,
                host: raw.host,
                port: raw.port,
                ssl: raw.ssl,
                sni,
                location,
                rewrite,
                fallback: list_or_empty(raw.fallback),
                headers_request: raw.headers_request,
                headers_response: raw.headers_response,
            },
        )
    }
}

/// Whether a source of a server is refused.
pub open spec fn entry_accepted(entry: (String, Imported<SourceRaw>)) -> bool {
    !source_refused(entry.1.value, entry.1.path@)
}

impl Server {
    /// Whether `r` is what `raw` converts to: the first source that is
    /// refused is reported with its error; else the server holds every
    /// source, converted, under its name and in the stated order, checks
    /// availability only if that is stated, and probes every
    /// `DEFAULT_CHECK_DURATION` milliseconds unless another interval is stated.
    pub open spec fn converts(raw: ServerRaw, r: Result<Server, ConfigError>) -> bool {
        match first_failing(raw.source@, |e: (String, Imported<SourceRaw>)| entry_accepted(e)) {
            Some(i) => r matches Err(e) && converts(
                raw.source@[i].1.value,
                raw.source@[i].1.path@,
                Err(e),
            ),
            None => {
                &&& r matches Ok(server)
                &&& server.source@.len() == raw.source@.len()
                &&& forall|i: int|
                    0 <= i < raw.source@.len() ==> (#[trigger] server.source@[i]).0
                        == raw.source@[i].0 && converts(
                        raw.source@[i].1.value,
                        raw.source@[i].1.path@,
                        Ok(server.source@[i].1),
                    )
                &&& server.ssl == raw.ssl
                &&& server.threads == raw.threads
                &&& server.check_status == match raw.check_status {
                    Some(b) => b,
                    None => false,
                }
                &&& server.check_duration == match raw.check_duration {
                    Some(d) => d,
                    None => DEFAULT_CHECK_DURATION,
                }
            },
        }
    }

    /// Converts the configuration of one listening port.
    pub fn from_raw(raw: ServerRaw) -> (r: Result<Self, ConfigError>)
        ensures
            Server::converts(raw, r),
    {
        let check_status = match raw.check_status {
            Some(b) => b,
            None => false,
        };
        let check_duration = match raw.check_duration {
            Some(d) => d,
            None => DEFAULT_CHECK_DURATION,
        };
        let ghost stated = raw.source@;
        let ghost ok = |e: (String, Imported<SourceRaw>)| entry_accepted(e);
        let mut source: Vec<(String, Source)> = Vec::new();
        assert(stated.take(0) =~= Seq::empty());
        for entry in it: raw.source
            invariant
                it.seq() == stated,
                ok == |e: (String, Imported<SourceRaw>)| entry_accepted(e),
                first_failing(stated.take(it.index() as int), ok) is None,
                source@.len() == it.index(),
                forall|i: int|
                    0 <= i < it.index() ==> (#[trigger] source@[i]).0 == stated[i].0 && converts(
                        stated[i].1.value,
                        stated[i].1.path@,
                        Ok(source@[i].1),
                    ),
        {
            let ghost i = it.index() as int;
            assert(stated.take(i + 1).drop_last() =~= stated.take(i));
            assert(stated.take(i + 1).last() == stated[i]);
            assert(entry == stated[i]);
            let (name, imported) = entry;
            match Source::from_raw(imported.value, imported.path.as_str()) {
                Ok(converted) => {
                    source.push((name, converted));
                },
                Err(e) => {
                    proof {
                        assert(!ok(stated[i]));
                        lemma_first_failing_extend(stated, ok, i + 1);
                    }
                    return Err(e);
                },
            }
        }
        assert(stated.take(stated.len() as int) =~= stated);
        Ok(Self { source, ssl: raw.ssl, threads: raw.threads, check_status, check_duration })
    }
}

} // verus!
