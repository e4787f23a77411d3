//! Static sources: files served from a directory.

use vstd::prelude::*;
use vstd::string::StringExecFns;

use crate::config::error::ConfigError;
use crate::config::location::{
    first_bad_location, is_location_error, parse_locations, rules_of, rules_view, with_trailing_slash,
    Location,
};
use crate::config::proxy::{list_or_empty, lower_sni, lowered, stated_or_empty};
use crate::config::rewrite::{
    first_bad_rewrite, is_rewrite_error, parse_rewrites, rewrites_match, Rewrite,
};
use crate::config::source::opt_view;
use crate::util::path::{base_dir, resolved_in, try_resolve};
use crate::util::text::chars_of;

verus! {

/// A source that serves the files under `root`.
#[derive(Clone, Debug)]
pub struct StaticServer {
    /// The directory that holds the files.
    pub root: String,
    /// The virtual host this source belongs to, in lower case.
    pub sni: Option<String>,
    pub location: Vec<Location>,
    pub rewrite: Option<Vec<Rewrite>>,
    /// Names of the sources to try, in order, when this one is unavailable.
    pub fallback: Vec<String>,
    pub headers_request: Option<Vec<(String, String)>>,
    pub headers_response: Option<Vec<(String, String)>>,
}

/// A static source as the configuration file states it.
pub struct StaticServerRaw {
    pub source_type: Option<String>,
    pub root: String,
    pub sni: Option<String>,
    pub location: Option<Vec<String>>,
    pub rewrite: Option<Vec<String>>,
    pub fallback: Option<Vec<String>>,
    pub headers_request: Option<Vec<(String, String)>>,
    pub headers_response: Option<Vec<(String, String)>>,
}

impl StaticServerRaw {
    /// Whether the source, stated in the file `path`, is refused: whether
    /// `path` has no directory to resolve the root against, or one of the
    /// `location` or `rewrite` entries is refused.
    pub open spec fn refused(&self, path: Seq<char>) -> bool {
        ||| base_dir(path) is None
        ||| first_bad_location(self.location) is Some
        ||| first_bad_rewrite(self.rewrite) is Some
    }
}

impl StaticServer {
    /// Whether `r` is what `raw`, stated in the file `path`, converts to.
    /// A file without a directory is reported first, then the first
    /// refused `location` entry, then the first refused `rewrite` entry.
    /// Else the source is as stated, with its root made to end in `/` and
    /// resolved against the file, its host name in lower case, its rules
    /// read from the entries, and an empty fallback list where none is stated.
    pub open spec fn converts(
        raw: StaticServerRaw,
        path: Seq<char>,
        r: Result<StaticServer, ConfigError>,
    ) -> bool {
        match (base_dir(path), first_bad_location(raw.location), first_bad_rewrite(raw.rewrite)) {
            (None, _, _) => r matches Err(ConfigError::NoDirectory { path: p }) && p@ == path,
            (Some(_), Some(i), _) => r matches Err(e) && is_location_error(
                e,
                raw.location.unwrap()@[i]@,
                path,
            ),
            (Some(_), None, Some(i)) => r matches Err(e) && is_rewrite_error(
                e,
                raw.rewrite.unwrap()@[i]@,
                path,
            ),
            (Some(dir), None, None) => {
                &&& r matches Ok(s)
                &&& s.root@ == resolved_in(dir, with_trailing_slash(raw.root@))
                &&& opt_view(s.sni) == lowered(raw.sni)
                &&& rules_view(s.location@) == rules_of(raw.location)
                &&& rewrites_match(s.rewrite, raw.rewrite)
                &&& s.fallback@ == stated_or_empty(raw.fallback)
                &&& s.headers_request == raw.headers_request
                &&& s.headers_response == raw.headers_response
            },
        }
    }

    /// Converts a static source stated in the file `path`.
    pub fn from_raw(raw: StaticServerRaw, path: &str) -> (r: Result<Self, ConfigError>)
        ensures
            StaticServer::converts(raw, path@, r),
            r is Err <==> raw.refused(path@),
    {
        let chars = chars_of(raw.root.as_str());
        let stated = if chars.len() > 0 && chars[chars.len() - 1] == '/' {
            raw.root
        } else {
            proof {
                reveal_strlit("/");
                assert(raw.root@ + "/"@ =~= raw.root@.push('/'));
            }
            raw.root.concat("/")
        };
        let root = match try_resolve(path, stated.as_str()) {
            Some(root) => root,
            None => {
                return Err(ConfigError::NoDirectory { path: path.to_owned() });
            },
        };
        let sni = lower_sni(raw.sni);
        let location = match parse_locations(raw.location, path) {
            Ok(l) => l,
            Err(e) => {
                return Err(e);
            },
        };
        let rewrite = match parse_rewrites(raw.rewrite, path) {
            Ok(r) => r,
            Err(e) => {
                return Err(e);
            },
        };
        Ok(
            Self {
                root,
                sni,
                location,
                rewrite,
                fallback: list_or_empty(raw.fallback),
                headers_request: raw.headers_request,
                headers_response: raw.headers_response,
            },
        )
    }
}

} // verus!
