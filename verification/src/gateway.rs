//! The gateway of one listening port: what to do with each request.
//!
//! The gateway itself neither reads from nor writes to a connection. It
//! decides: which source serves a request, which source takes over when
//! that one is unavailable, and what is sent upstream or back.

use std::borrow::Cow;
use vstd::prelude::*;
use vstd::slice::slice_to_vec;
use vstd::string::{StringExecFns, StringSliceAdditionalSpecFns};

use crate::config::proxy::Proxy;
use crate::config::source::{opt_view, Source};
use crate::fallback::{is_search, outcome_view, resolve_with_fallback, SearchModel};
use crate::util::file_err::{make_page50x, Response, PAGE404, PAGE50X, SERVER_NAME};
use crate::util::mime::{get_mime_type, lemma_html_file, mime_of};
use crate::util::path::{lemma_leading_slashes, resolved_uri, try_resolve_uri, uri_root};
use crate::util::route::{
    depth_of, in_table, leaves_root, lowercase, resolve, resolve_route, static_file_path, static_path,
    static_target, step_into, strip_query, with_index, Resolution, Resolved, RouteError,
};
use crate::util::table::{keys, Routes};
use crate::util::text::{index_of, lemma_single_field};
use crate::util::url::dec::{decode, url_decoded};
use crate::util::url::enc::{encode_ignore_slash, percent_encoded};

verus! {

/// What the gateway remembers of a request between its phases: the key of
/// the bucket and the name of the source that serve it.
pub struct GatewayCTX {
    pub sni: Option<String>,
    pub source: Option<String>,
}

// ---------------------------------------------------------------------------
// What is sent upstream and back

/// Whether `http::Uri` accepts the text when it is parsed as one.
pub uninterp spec fn uri_accepted(uri: Seq<char>) -> bool;

/// Parses the text into an `http::Uri`, by `str::parse`, and says whether
/// that succeeded.
#[verifier::external_body]
fn parses_as_uri(uri: &str) -> (r: bool)
    ensures
        r == uri_accepted(uri@),
{
    uri.parse::<http::Uri>().is_ok()
}

/// The request target that stands for a resolved path: its decoded form,
/// provided that the path can be decoded and the result is a valid target.
pub open spec fn request_target(uri: Seq<char>) -> Option<Seq<char>> {
    match url_decoded(uri) {
        Some(decoded) => if uri_accepted(decoded) {
            Some(decoded)
        } else {
            None
        },
        None => None,
    }
}

/// The request target for a decoded path, given whether it is well formed;
/// a path that could not be decoded or is not well formed is refused.
pub fn target_or_invalid(decoded: Option<String>, well_formed: bool) -> (r: Result<
    String,
    RouteError,
>)
    ensures
        r == match decoded {
            Some(target) => if well_formed {
                Ok(target)
            } else {
                Err(RouteError::UriRewriteInvalid)
            },
            None => Err(RouteError::UriRewriteInvalid),
        },
{
    match decoded {
        Some(target) => {
            if well_formed {
                Ok(target)
            } else {
                Err(RouteError::UriRewriteInvalid)
            }
        },
        None => Err(RouteError::UriRewriteInvalid),
    }
}

/// The request target that stands for the resolved path `uri`.
pub fn rewritten_target(uri: &str) -> (r: Result<String, RouteError>)
    ensures
        match request_target(uri@) {
            Some(target) => r matches Ok(t) && t@ == target,
            None => r == Err::<String, RouteError>(RouteError::UriRewriteInvalid),
        },
{
    let decoded = decode(uri);
    let well_formed = match &decoded {
        Some(target) => parses_as_uri(target.as_str()),
        None => false,
    };
    target_or_invalid(decoded, well_formed)
}

/// The name of a header and its value, as texts.
pub open spec fn header_view(h: (String, String)) -> (Seq<char>, Seq<char>) {
    (h.0@, h.1@)
}

/// The headers of a list, as texts.
pub open spec fn headers_view(list: Seq<(String, String)>) -> Seq<(Seq<char>, Seq<char>)> {
    list.map_values(|h: (String, String)| header_view(h))
}

/// The headers of an optional list; no list is an empty list.
pub open spec fn opt_headers_view(list: Option<Vec<(String, String)>>) -> Seq<
    (Seq<char>, Seq<char>),
> {
    match list {
        Some(list) => headers_view(list@),
        None => Seq::empty(),
    }
}

fn append_headers(out: &mut Vec<(String, String)>, list: &Option<Vec<(String, String)>>)
    ensures
        headers_view(final(out)@) == headers_view(old(out)@) + opt_headers_view(*list),
{
    match list {
        None => {
            assert(headers_view(out@) + Seq::empty() =~= headers_view(out@));
        },
        Some(list) => {
            let mut i: usize = 0;
            assert(list@.take(0) =~= Seq::empty());
            assert(headers_view(out@) + headers_view(list@.take(0)) =~= headers_view(out@));
            while i < list.len()
                invariant
                    i <= list.len(),
                    headers_view(out@) == headers_view(old(out)@) + headers_view(
                        list@.take(i as int),
                    ),
                decreases list.len() - i,
            {
                let ghost before = headers_view(out@);
                out.push((list[i].0.clone(), list[i].1.clone()));
                assert(headers_view(out@) =~= before.push(header_view(list@[i as int])));
                assert(headers_view(list@.take(i + 1)) =~= headers_view(list@.take(i as int)).push(
                    header_view(list@[i as int]),
                ));
                assert(headers_view(out@) =~= headers_view(old(out)@) + headers_view(
                    list@.take(i + 1),
                ));
                i += 1;
            }
            assert(list@.take(list@.len() as int) =~= list@);
        },
    }
}

/// How to reach the upstream of a proxied source, and what to change in
/// the request before it is sent there.
pub struct UpstreamPlan {
    /// Host name or IP address to connect to.
    pub address: String,
    pub port: u16,
    /// Whether to connect with TLS.
    pub tls: bool,
    /// Whether the upstream's certificate is verified: exactly when TLS is
    /// used.
    pub verify_cert: bool,
    /// The TLS server name.
    pub sni: String,
    /// Seconds allowed for the connection to be made.
    pub connect_timeout: u64,
    /// Whether the upstream is spoken to in HTTP/1.1 only.
    pub http1_only: bool,
    /// The headers to set on the request, in order; a later one replaces an
    /// earlier one of the same name.
    pub headers: Vec<(String, String)>,
}

/// Seconds allowed for a connection to an upstream to be made.
pub const CONNECT_TIMEOUT: u64 = 3;

/// The headers that a proxied source sets on a request: `Host`, if the
/// source overrides it, then the configured ones.
pub open spec fn upstream_headers(source: Proxy) -> Seq<(Seq<char>, Seq<char>)> {
    match source.host {
        Some(host) => seq![("Host"@, host@)] + opt_headers_view(source.headers_request),
        None => opt_headers_view(source.headers_request),
    }
}

/// The headers that the gateway sets on an upstream's response: those
/// that the source configures, then `Server`, which therefore always
/// bears the gateway's name.
pub open spec fn response_headers(configured: Option<Vec<(String, String)>>) -> Seq<
    (Seq<char>, Seq<char>),
> {
    opt_headers_view(configured).push(("Server"@, SERVER_NAME@))
}

/// What to change in an upstream's response before it is sent back.
pub struct ResponsePlan {
    /// The headers to set, in order; a later one replaces an earlier one of
    /// the same name.
    pub set: Vec<(String, String)>,
    /// The names of the headers to take out.
    pub remove: Vec<String>,
}

/// What to do with a request once its source is known.
pub enum RequestPlan {
    /// Send the request upstream, with this request target.
    Forward { uri: String },
    /// Answer with a file. `file` is the path of the file to send and
    /// `not_found` that of the source's own 404 page; either is `None` if
    /// the source's root has no directory to resolve against.
    Serve { uri: String, file: Option<String>, not_found: Option<String> },
}

/// The gateway of one listening port.
pub struct Gateway {
    pub port: u16,
    pub routes: Routes,
    /// Whether the availability of sources is checked before they are used.
    pub check_status: bool,
}

/// The host that a request is for, as the key of its bucket.
pub open spec fn request_key(host: Option<Seq<char>>) -> Seq<char> {
    match host {
        Some(h) => lowercase(h),
        None => lowercase(Seq::empty()),
    }
}

/// The text of an optional string slice.
pub open spec fn opt_str_view(s: Option<&str>) -> Option<Seq<char>> {
    match s {
        Some(s) => Some(s@),
        None => None,
    }
}

impl Gateway {
    /// The gateway of the listening port `port`, with its routing table.
    pub fn new(port: u16, routes: Routes, check_status: bool) -> (r: Self)
        ensures
            r.port == port,
            r.routes == routes,
            r.check_status == check_status,
    {
        Self { port, routes, check_status }
    }

    /// The context of a request that has not been routed yet.
    pub fn new_ctx(&self) -> (r: GatewayCTX)
        ensures
            r.sni is None,
            r.source is None,
    {
        GatewayCTX { sni: None, source: None }
    }

    /// The source that served the request, as the context remembers it.
    pub open spec fn remembered(&self, ctx: GatewayCTX) -> Option<(int, int)> {
        match (ctx.sni, ctx.source) {
            (Some(sni), Some(name)) => match index_of(keys(self.routes@), sni@) {
                Some(b) => match index_of(self.routes@[b].names, name@) {
                    Some(s) => Some((b, s)),
                    None => None,
                },
                None => None,
            },
            _ => None,
        }
    }

    /// Looks up the source that the context remembers.
    pub fn remembered_source(&self, ctx: &GatewayCTX) -> (r: Option<&Source>)
        ensures
            match self.remembered(*ctx) {
                Some((b, s)) => 0 <= b < self.routes.buckets.len() && 0 <= s
                    < self.routes.buckets[b].sources.len() && r == Some(
                    &self.routes.buckets[b].sources[s].1,
                ),
                None => r is None,
            },
    {
        match (&ctx.sni, &ctx.source) {
            (Some(sni), Some(name)) => {
                match self.routes.bucket_index(sni.as_str()) {
                    Some(b) => match self.routes.source_index(b, name.as_str()) {
                        Some(s) => Some(&self.routes.buckets[b].sources[s].1),
                        None => None,
                    },
                    None => None,
                }
            },
            _ => None,
        }
    }

    /// How to connect to the upstream of `source`: by TLS if the source
    /// says so, verifying the certificate exactly then, with the host
    /// override as server name, or else the address itself.
    pub fn peer(&self, source: &Proxy) -> (r: UpstreamPlan)
        ensures
            r.address@ == source.ip@,
            r.port == source.port,
            r.tls == source.ssl,
            r.verify_cert == source.ssl,
            r.sni@ == match source.host {
                Some(host) => host@,
                None => source.ip@,
            },
            r.connect_timeout == CONNECT_TIMEOUT,
            r.http1_only,
            headers_view(r.headers@) == upstream_headers(*source),
    {
        let sni = match &source.host {
            Some(domain) => domain.clone(),
            None => source.ip.clone(),
        };
        let mut headers: Vec<(String, String)> = Vec::new();
        assert(headers_view(headers@) =~= Seq::empty());
        match &source.host {
            Some(domain) => {
                headers.push((String::from_str("Host"), domain.clone()));
                assert(headers_view(headers@) =~= seq![("Host"@, domain@)]);
            },
            None => {},
        }
        append_headers(&mut headers, &source.headers_request);
        assert(Seq::<(Seq<char>, Seq<char>)>::empty() + opt_headers_view(source.headers_request)
            =~= opt_headers_view(source.headers_request));
        UpstreamPlan {
            address: source.ip.clone(),
            port: source.port,
            tls: source.ssl,
            verify_cert: source.ssl,
            sni,
            connect_timeout: CONNECT_TIMEOUT,
            http1_only: true,
            headers,
        }
    }

    /// How to reach the upstream for a request that has been routed: the
    /// plan of the proxied source that the context remembers.
    ///
    /// Fails with `NoRoute` when the context remembers no source of the
    /// table, and with `UpstreamAddressError` when the source is a static
    /// one, which has no upstream.
    pub fn upstream_peer(&self, ctx: &GatewayCTX) -> (r: Result<UpstreamPlan, RouteError>)
        ensures
            match self.remembered(*ctx) {
                None => r matches Err(RouteError::NoRoute),
                Some((b, s)) => match self.routes.buckets[b].sources[s].1 {
                    Source::Static(_) => r matches Err(RouteError::UpstreamAddressError),
                    Source::Proxy(proxy) => {
                        &&& r matches Ok(plan)
                        &&& plan.address@ == proxy.ip@
                        &&& plan.port == proxy.port
                        &&& plan.tls == proxy.ssl
                        &&& plan.verify_cert == proxy.ssl
                        &&& plan.sni@ == match proxy.host {
                            Some(host) => host@,
                            None => proxy.ip@,
                        }
                        &&& plan.connect_timeout == CONNECT_TIMEOUT
                        &&& plan.http1_only
                        &&& headers_view(plan.headers@) == upstream_headers(proxy)
                    },
                },
            },
    {
        match self.remembered_source(ctx) {
            None => Err(RouteError::NoRoute),
            Some(source) => match source {
                Source::Proxy(proxy) => Ok(self.peer(proxy)),
                Source::Static(_) => Err(RouteError::UpstreamAddressError),
            },
        }
    }

    /// What to change in the upstream's response: the response headers of
    /// the source that the context remembers are set, then `Server`; the
    /// `alt-svc` header is taken out.
    pub fn response_filter(&self, ctx: &GatewayCTX) -> (r: ResponsePlan)
        ensures
            headers_view(r.set@) == response_headers(
                match self.remembered(*ctx) {
                    Some((b, s)) => self.routes.buckets[b].sources[s].1.headers_response(),
                    None => None,
                },
            ),
            r.remove@.len() == 1,
            r.remove@[0]@ == "alt-svc"@,
    {
        let mut set: Vec<(String, String)> = Vec::new();
        assert(headers_view(set@) =~= Seq::empty());
        let ghost configured: Option<Vec<(String, String)>> = None;
        match self.remembered_source(ctx) {
            Some(source) => {
                append_headers(&mut set, source.headers_response_as_ref());
                proof {
                    configured = source.headers_response();
                }
            },
            None => {},
        }
        assert(headers_view(set@) =~= opt_headers_view(configured));
        let ghost before = headers_view(set@);
        set.push((String::from_str("Server"), String::from_str(SERVER_NAME)));
        assert(headers_view(set@) =~= before.push(("Server"@, SERVER_NAME@)));
        let mut remove: Vec<String> = Vec::new();
        remove.push(String::from_str("alt-svc"));
        ResponsePlan { set, remove }
    }

    /// Whether `outcome` may be the source found for a request that
    /// resolution routed to `first`: `first` itself where availability is
    /// not checked, and else the result of a fallback search that asked
    /// `probe`.
    pub open spec fn finds<F: Fn(&Source, &str) -> bool>(
        &self,
        key: Seq<char>,
        first: Resolution,
        probe: F,
        outcome: Result<Resolution, RouteError>,
    ) -> bool {
        if self.check_status {
            exists|trace: Seq<SearchModel>|
                is_search(&self.routes, key, probe, first, trace, outcome)
        } else {
            outcome == Ok::<Resolution, RouteError>(first)
        }
    }

    /// Finds the source that serves a request for `host` with the encoded
    /// path `uri`: the source that resolution gives and, where
    /// availability is checked, the outcome of the fallback search from it.
    pub fn route<F: Fn(&Source, &str) -> bool>(&self, host: Option<&str>, uri: &str, probe: F) -> (r:
        Result<Resolved, RouteError>)
        requires
            forall|source: &Source, uri: &str| probe.requires((source, uri)),
        ensures
            match resolve(self.routes@, request_key(opt_str_view(host)), uri@, 0) {
                Err(e) => r matches Err(x) && x == e,
                Ok(first) => self.finds(
                    request_key(opt_str_view(host)),
                    first,
                    probe,
                    outcome_view(r),
                ),
            },
            r matches Ok(found) ==> in_table(self.routes@, found@),
    {
        let key = match host {
            Some(h) => h.to_lowercase(),
            None => {
                assert(""@ =~= Seq::<char>::empty()) by {
                    reveal_strlit("");
                }
                "".to_lowercase()
            },
        };
        match resolve_route(&self.routes, key.as_str(), uri, 0) {
            Err(e) => Err(e),
            Ok(first) => {
                if self.check_status {
                    resolve_with_fallback(&self.routes, key.as_str(), first, probe)
                } else {
                    Ok(first)
                }
            },
        }
    }

    /// Whether `r` is the plan for a request served by the source that
    /// `found` points at, and `after` the context that remembers it: the
    /// context holds the key of the source's bucket and the source's name;
    /// a path that is no valid request target once decoded is refused; a
    /// proxied source has the request forwarded with the decoded path; a
    /// static one has the file served that the decoded path names, its
    /// query taken off.
    pub open spec fn plans(
        &self,
        found: Resolution,
        r: Result<RequestPlan, RouteError>,
        after: GatewayCTX,
    ) -> bool {
        let bucket = self.routes.buckets[found.bucket];
        let entry = bucket.sources[found.source];
        &&& after.sni == Some(bucket.sni)
        &&& after.source == Some(entry.0)
        &&& match request_target(found.uri) {
            None => r matches Err(RouteError::UriRewriteInvalid),
            Some(target) => match entry.1 {
                Source::Proxy(_) => r matches Ok(RequestPlan::Forward { uri }) && uri@ == target,
                Source::Static(source) => {
                    &&& r matches Ok(RequestPlan::Serve { uri, file, not_found })
                    &&& uri@ == target
                    &&& opt_view(file) == static_target(source.root@, target)
                    &&& opt_view(not_found) == not_found_target(source.root@)
                },
            },
        }
    }

    /// Plans the handling of a request served by the source that `found`
    /// points at, and notes the source in the context.
    pub fn plan(&self, found: &Resolved, ctx: &mut GatewayCTX) -> (r: Result<
        RequestPlan,
        RouteError,
    >)
        requires
            in_table(self.routes@, found@),
        ensures
            self.plans(found@, r, *final(ctx)),
    {
        let bucket = &self.routes.buckets[found.bucket];
        let entry = &bucket.sources[found.source];
        ctx.sni = Some(bucket.sni.clone());
        ctx.source = Some(entry.0.clone());
        let uri = match rewritten_target(found.uri.as_str()) {
            Ok(target) => target,
            Err(e) => {
                return Err(e);
            },
        };
        match &entry.1 {
            Source::Proxy(_) => Ok(RequestPlan::Forward { uri }),
            Source::Static(source) => {
                let file = static_file_path(source.root.as_str(), uri.as_str());
                let not_found = try_resolve_uri(source.root.as_str(), "/404.html");
                Ok(RequestPlan::Serve { uri, file, not_found })
            },
        }
    }

    /// Whether `r` is what is decided for a request with the `Host` header
    /// `host` and a request target of the bytes `target`, and `after` the
    /// context it leaves: the target is percent-encoded and resolved;
    /// where resolution fails the request fails with its error; else a
    /// source is found from what resolution gave, and the request fails
    /// with the error of the search or is planned for the source found.
    /// A request that fails before a source is found leaves the context as
    /// it was.
    pub open spec fn decides<F: Fn(&Source, &str) -> bool>(
        &self,
        host: Option<Seq<char>>,
        target: Seq<u8>,
        probe: F,
        before: GatewayCTX,
        after: GatewayCTX,
        r: Result<RequestPlan, RouteError>,
    ) -> bool {
        match resolve(self.routes@, request_key(host), percent_encoded(target), 0) {
            Err(e) => (r matches Err(x) && x == e) && after == before,
            Ok(first) => exists|outcome: Result<Resolution, RouteError>|
                {
                    &&& #[trigger] self.finds(request_key(host), first, probe, outcome)
                    &&& match outcome {
                        Err(e) => (r matches Err(x) && x == e) && after == before,
                        Ok(found) => in_table(self.routes@, found) && self.plans(found, r, after),
                    }
                },
        }
    }

    /// Decides what to do with a request: the request target `uri_raw` is
    /// percent-encoded, a source is found for it and the `Host` header
    /// `host` (none stands for the default host), and the handling by that
    /// source is planned.
    ///
    /// Fails where resolution or the fallback search fail, and then
    /// leaves the context as it was; fails with `UriRewriteInvalid` where
    /// the resolved path is no valid request target.
    pub fn request_filter<F: Fn(&Source, &str) -> bool>(
        &self,
        host: Option<&str>,
        uri_raw: &str,
        ctx: &mut GatewayCTX,
        probe: F,
    ) -> (r: Result<RequestPlan, RouteError>)
        requires
            forall|source: &Source, uri: &str| probe.requires((source, uri)),
        ensures
            self.decides(
                opt_str_view(host),
                uri_raw.spec_bytes(),
                probe,
                *old(ctx),
                *final(ctx),
                r,
            ),
    {
        let uri = encode_ignore_slash(uri_raw);
        let uri: &str = match &uri {
            Cow::Borrowed(same) => same,
            Cow::Owned(encoded) => encoded.as_str(),
        };
        match self.route(host, uri, probe) {
            Err(e) => Err(e),
            Ok(found) => self.plan(&found, ctx),
        }
    }

    /// Handles a request as far as the gateway can by itself: decides
    /// what to do with it, as [`Gateway::request_filter`] does, and answers
    /// it if a static source serves it, reading the files with `read`. A
    /// request for a proxied source is handed back to be forwarded.
    pub fn respond<F: Fn(&Source, &str) -> bool, R: Fn(&str) -> Option<Vec<u8>>>(
        &self,
        host: Option<&str>,
        uri_raw: &str,
        ctx: &mut GatewayCTX,
        probe: F,
        read: R,
    ) -> (r: Result<Answer, RouteError>)
        requires
            forall|source: &Source, uri: &str| probe.requires((source, uri)),
            forall|path: &str| read.requires((path,)),
        ensures
            exists|plan: Result<RequestPlan, RouteError>|
                {
                    &&& #[trigger] self.decides(
                        opt_str_view(host),
                        uri_raw.spec_bytes(),
                        probe,
                        *old(ctx),
                        *final(ctx),
                        plan,
                    )
                    &&& match plan {
                        Err(e) => r matches Err(x) && x == e,
                        Ok(RequestPlan::Forward { uri }) => r matches Ok(
                            Answer::Forward { uri: target },
                        ) && target == uri,
                        Ok(RequestPlan::Serve { uri, file, not_found }) => r matches Ok(
                            Answer::Respond { uri: target, response, fault },
                        ) && target == uri && served(file, not_found, read, response, fault),
                    }
                },
    {
        match self.request_filter(host, uri_raw, ctx, probe) {
            Err(e) => Err(e),
            Ok(RequestPlan::Forward { uri }) => Ok(Answer::Forward { uri }),
            Ok(RequestPlan::Serve { uri, file, not_found }) => {
                let (response, fault) = serve(&file, &not_found, read);
                Ok(Answer::Respond { uri, response, fault })
            },
        }
    }

    /// What to answer when a request could not be routed or proxied: the
    /// error page, with status 502.
    pub fn fail_to_proxy(&self) -> (r: Response)
        ensures
            r.status == 502,
            r.server@ == SERVER_NAME@,
            r.body@ == PAGE50X.spec_bytes(),
            r.content_length == r.body@.len(),
            r.content_type@ == mime_of(".html"@),
    {
        make_page50x(502)
    }
}

/// The path of a static source's own 404 page.
pub open spec fn not_found_target(root: Seq<char>) -> Option<Seq<char>> {
    match uri_root(root) {
        Some(dir) => Some(resolved_uri(dir, "/404.html"@)),
        None => None,
    }
}

/// What is amiss when a static source answers, given whether the file
/// asked for and the source's own 404 page could be read: nothing as long
/// as one of them could; else the file is missing, and so is the page
/// that should say so.
pub open spec fn fault_of(file_read: bool, page_read: bool) -> Option<RouteError> {
    if file_read || page_read {
        None
    } else {
        Some(RouteError::StaticFileMissing)
    }
}

/// What is amiss when a static source answers, given whether the file
/// asked for and the source's own 404 page could be read.
pub fn static_fault(file_read: bool, page_read: bool) -> (r: Option<RouteError>)
    ensures
        r == fault_of(file_read, page_read),
{
    if file_read || page_read {
        None
    } else {
        Some(RouteError::StaticFileMissing)
    }
}

/// Whether `r` is what a static source answers, given what reading the
/// file asked for and reading the source's own 404 page gave (`None` for
/// a file that could not be read): the file with status 200; failing that,
/// with status 404, the source's 404 page or, failing that too, the
/// built-in one. `Server` bears the gateway's name, `Content-Length` is
/// the length of the body, and the content type goes by the name of the
/// file that is sent, and in the last case by that of the 404 page.
pub open spec fn answers_with(
    file_path: Seq<char>,
    file: Option<Vec<u8>>,
    not_found_path: Seq<char>,
    not_found: Option<Vec<u8>>,
    r: Response,
) -> bool {
    &&& r.server@ == SERVER_NAME@
    &&& r.content_length == r.body@.len()
    &&& match file {
        Some(content) => r.status == 200 && r.body@ == content@ && r.content_type@ == mime_of(
            file_path,
        ),
        None => r.status == 404 && r.content_type@ == mime_of(not_found_path) && r.body@
            == match not_found {
            Some(page) => page@,
            None => PAGE404.spec_bytes(),
        },
    }
}

/// What a static source answers, given what reading the file asked for
/// and reading the source's own 404 page gave.
pub fn static_response(
    file_path: &str,
    file: Option<Vec<u8>>,
    not_found_path: &str,
    not_found: Option<Vec<u8>>,
) -> (r: Response)
    ensures
        answers_with(file_path@, file, not_found_path@, not_found, r),
{
    match file {
        Some(content) => Response {
            status: 200,
            server: String::from_str(SERVER_NAME),
            content_length: content.len(),
            content_type: get_mime_type(file_path),
            body: content,
        },
        None => {
            let body = match not_found {
                Some(page) => page,
                None => slice_to_vec(PAGE404.as_bytes()),
            };
            Response {
                status: 404,
                server: String::from_str(SERVER_NAME),
                content_length: body.len(),
                content_type: get_mime_type(not_found_path),
                body,
            }
        },
    }
}

/// What the gateway does with a request that it has handled as far as it
/// can by itself.
pub enum Answer {
    /// The request is to be sent upstream, with this request target.
    Forward { uri: String },
    /// The request, with this request target, is answered with this
    /// response. `fault` says what was amiss in making it: that neither
    /// the file nor the source's own 404 page could be read.
    Respond { uri: String, response: Response, fault: Option<RouteError> },
}

/// Whether reading the file at `path` with `read` may have given `got`.
/// Where there is no path there is nothing to read.
pub open spec fn was_read<R: Fn(&str) -> Option<Vec<u8>>>(
    read: R,
    path: Option<String>,
    got: Option<Vec<u8>>,
) -> bool {
    match path {
        None => got is None,
        Some(p) => exists|s: &str| s@ == p@ && #[trigger] read.ensures((s,), got),
    }
}

/// The name by which the content type of a file goes: its path, and `or`
/// where it has none.
pub open spec fn named(path: Option<String>, or: Seq<char>) -> Seq<char> {
    match path {
        Some(p) => p@,
        None => or,
    }
}

/// Whether `r` is what a static source answers to a request for `file`,
/// with its own 404 page at `not_found`, when files are read with `read`,
/// and `fault` what was amiss: the file is read; if it cannot be read the
/// page is read; the answer is made of what was read, as
/// [`answers_with`] says; and the file is missing if neither could be
/// read. A file without a path cannot be read, and a page without a path
/// goes by the name `404.html`.
pub open spec fn served<R: Fn(&str) -> Option<Vec<u8>>>(
    file: Option<String>,
    not_found: Option<String>,
    read: R,
    r: Response,
    fault: Option<RouteError>,
) -> bool {
    exists|content: Option<Vec<u8>>, page: Option<Vec<u8>>|
        {
            &&& was_read(read, file, content)
            &&& fault == fault_of(content is Some, page is Some)
            &&& if content is Some {
                page is None
            } else {
                was_read(read, not_found, page)
            }
            &&& #[trigger] answers_with(
                named(file, Seq::empty()),
                content,
                named(not_found, "404.html"@),
                page,
                r,
            )
        }
}

/// Answers a request that a static source serves: reads the file at
/// `file` with `read` and, if it cannot be read, the source's own 404 page
/// at `not_found`, and makes the answer of what was read. With the answer
/// comes what was amiss in making it.
pub fn serve<R: Fn(&str) -> Option<Vec<u8>>>(
    file: &Option<String>,
    not_found: &Option<String>,
    read: R,
) -> (r: (Response, Option<RouteError>))
    requires
        forall|path: &str| read.requires((path,)),
    ensures
        served(*file, *not_found, read, r.0, r.1),
{
    let content = match file {
        Some(path) => read(path.as_str()),
        None => None,
    };
    let page = if content.is_some() {
        None
    } else {
        match not_found {
            Some(path) => read(path.as_str()),
            None => None,
        }
    };
    let file_name: &str = match file {
        Some(path) => path.as_str(),
        None => "",
    };
    let page_name: &str = match not_found {
        Some(path) => path.as_str(),
        None => "404.html",
    };
    proof {
        reveal_strlit("");
        assert(""@ =~= Seq::<char>::empty());
        assert(was_read(read, *file, content));
    }
    let fault = static_fault(content.is_some(), page.is_some());
    let r = static_response(file_name, content, page_name, page);
    assert(answers_with(
        named(*file, Seq::empty()),
        content,
        named(*not_found, "404.html"@),
        page,
        r,
    ));
    (r, fault)
}

/// A request for the directory of a static source is answered with the
/// index file: below a root that ends in `/`, the request target `/` names
/// the file `index.html` of the root; and when that file can be read, the
/// answer has status 200, the file's bytes as its body and their number
/// as its length, the content type `text/html`, and the gateway's name as
/// `Server`.
pub proof fn lemma_index_is_served(
    root: Seq<char>,
    content: Vec<u8>,
    not_found_path: Seq<char>,
    page: Option<Vec<u8>>,
    r: Response,
)
    requires
        root.len() > 0 && root.last() == '/',
        answers_with(root + "index.html"@, Some(content), not_found_path, page, r),
    ensures
        static_target(root, "/"@) == Some(root + "index.html"@),
        r.status == 200,
        r.body@ == content@,
        r.content_length == content@.len(),
        r.content_type@ == "text/html"@,
        r.server@ == "Pingpong"@,
{
    reveal_strlit("/");
    reveal_strlit("index.html");
    reveal_strlit(".html");
    reveal_strlit("..");
    let target = "/"@;
    let name = "index.html"@;
    assert(target =~= seq!['/']);
    assert(target.drop_last() =~= Seq::<char>::empty());
    assert(index_of(target, '?') is None) by {
        assert(index_of(target.drop_last(), '?') is None);
    }
    let full = with_index(strip_query(target));
    assert(full =~= target + name);
    lemma_leading_slashes(full, 1);
    assert(full.skip(1) =~= name);
    assert(static_path(target) == name);
    assert(!name.contains('/')) by {
        if name.contains('/') {
            let i = choose|i: int| 0 <= i < name.len() && name[i] == '/';
        }
    }
    lemma_single_field(name, '/');
    assert(!leaves_root(name)) by {
        assert(seq![name].drop_last() =~= Seq::<Seq<char>>::empty());
        assert(seq![name].last() == name);
        assert(seq!['.', '.'].len() == 2);
        assert(depth_of(Seq::<Seq<char>>::empty()) == Some(0nat));
        assert(depth_of(seq![name]) == step_into(Some(0), name));
    }
    assert(name =~= "index"@ + ".html"@) by {
        reveal_strlit("index");
    }
    assert(root + name =~= (root + "index"@) + ".html"@);
    lemma_html_file(root + "index"@);
}

/// A request for a file that cannot be read is answered with status 404:
/// below a root that ends in `/` the source's own page is the file
/// `404.html` of the root; the answer has that page as its body if it can
/// be read and the built-in page if not, the length of the body as its
/// length, the content type `text/html`, and the gateway's name as `Server`.
pub proof fn lemma_missing_file_is_answered(
    root: Seq<char>,
    file_path: Seq<char>,
    page: Option<Vec<u8>>,
    r: Response,
)
    requires
        root.len() > 0 && root.last() == '/',
        answers_with(file_path, None, root + "404.html"@, page, r),
    ensures
        not_found_target(root) == Some(root + "404.html"@),
        r.status == 404,
        r.body@ == match page {
            Some(own) => own@,
            None => PAGE404.spec_bytes(),
        },
        r.content_length == r.body@.len(),
        r.content_type@ == "text/html"@,
        r.server@ == "Pingpong"@,
{
    reveal_strlit("/404.html");
    reveal_strlit("404.html");
    reveal_strlit(".html");
    reveal_strlit("404");
    let stated = "/404.html"@;
    lemma_leading_slashes(stated, 1);
    assert(stated.skip(1) =~= "404.html"@);
    assert("404.html"@ =~= "404"@ + ".html"@);
    assert(root + "404.html"@ =~= (root + "404"@) + ".html"@);
    lemma_html_file(root + "404"@);
}

} // verus!
