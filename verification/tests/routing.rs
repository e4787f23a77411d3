//! Route resolution on small tables.

use pingpong::config::location::Location;
use pingpong::config::proxy::Proxy;
use pingpong::config::rewrite::Rewrite;
use pingpong::config::source::Source;
use pingpong::config::static_server::StaticServer;
use pingpong::gateway::GatewayCTX;
use pingpong::util::route::{
    apply_rewrites, check_static_status, find_route, find_route_with_start, match_route,
    path_leaves_root, pick_source, resolve_from_index, resolve_route, rewritten, score_for,
    select_source, static_available, static_file_path, RewriteOutcome, RouteError, MAX_DEPTH,
};
use pingpong::util::table::Routes;

fn locations(entries: &[&str]) -> Vec<Location> {
    entries.iter().map(|l| Location::new(String::from(*l), "test.toml").ok().unwrap()).collect()
}

fn rewrites(entries: &[&str]) -> Option<Vec<Rewrite>> {
    if entries.is_empty() {
        None
    } else {
        Some(
            entries
                .iter()
                .map(|r| Rewrite::new(String::from(*r), "test.toml").ok().unwrap())
                .collect(),
        )
    }
}

fn proxy(sni: Option<&str>, locs: &[&str], rws: &[&str]) -> Source {
    Source::Proxy(Proxy {
        ip: String::from("127.0.0.1"),
        host: None,
        port: 8080,
        ssl: false,
        sni: sni.map(String::from),
        location: locations(locs),
        rewrite: rewrites(rws),
        fallback: Vec::new(),
        headers_request: None,
        headers_response: None,
    })
}

fn table(entries: Vec<(&str, Source)>) -> Routes {
    let mut routes = Routes::new();
    for (name, source) in entries {
        assert!(routes.insert(String::from(name), source));
    }
    routes
}

fn ctx() -> GatewayCTX {
    GatewayCTX { sni: None, source: None }
}

fn routed(routes: &Routes, sni: &str, uri: &str) -> Result<(String, String), RouteError> {
    let mut c = ctx();
    find_route(sni, uri, routes, 0, &mut c).map(|((name, _), u)| (name.clone(), u))
}

fn ok(name: &str, uri: &str) -> Result<(String, String), RouteError> {
    Ok((String::from(name), String::from(uri)))
}

#[test]
fn api_request_is_rewritten_and_rerouted_to_app() {
    let routes = table(vec![
        ("api", proxy(None, &["/api"], &["^/api/(.*)$ /$1 last"])),
        ("app", proxy(None, &["/"], &[])),
    ]);
    let mut c = ctx();
    let ((name, source), uri) = find_route("", "/api/users", &routes, 0, &mut c).ok().unwrap();
    assert_eq!(name.as_str(), "app");
    assert_eq!(uri.as_str(), "/users");
    assert!(source.is_proxy());
    assert!(match_route("/users", source));
    assert_eq!(c.sni, Some(String::new()));
    assert_eq!(c.source, None);
}

#[test]
fn sole_matching_source_is_resolved() {
    let routes = table(vec![
        ("a", proxy(None, &["/a/"], &[])),
        ("b", proxy(None, &["/b/", "= /only-b"], &[])),
        ("c", proxy(Some("example.com"), &["/c/"], &[])),
    ]);
    assert_eq!(routed(&routes, "", "/b/x"), ok("b", "/b/x"));
    assert_eq!(routed(&routes, "", "/only-b"), ok("b", "/only-b"));
    assert_eq!(routed(&routes, "", "/a/"), ok("a", "/a/"));
    assert_eq!(routed(&routes, "example.com", "/c/1"), ok("c", "/c/1"));
    assert_eq!(routed(&routes, "example.com", "/a/1"), ok("a", "/a/1"));
}

#[test]
fn nothing_matches_is_no_route() {
    let routes = table(vec![("a", proxy(None, &["/a/"], &[]))]);
    let mut c = ctx();
    let r = find_route("", "/b", &routes, 0, &mut c);
    assert_eq!(r.err(), Some(RouteError::NoRoute));
    assert_eq!(c.sni, None);
    let empty = Routes::new();
    assert_eq!(routed(&empty, "example.com", "/"), Err(RouteError::NoRoute));
}

#[test]
fn source_of_another_host_is_not_consulted() {
    let routes = table(vec![("c", proxy(Some("example.com"), &["/"], &[]))]);
    assert_eq!(routed(&routes, "other.org", "/"), Err(RouteError::NoRoute));
    assert_eq!(routed(&routes, "", "/"), Err(RouteError::NoRoute));
    assert_eq!(routed(&routes, "example.com", "/"), ok("c", "/"));
}

#[test]
fn host_is_case_folded() {
    let routes = table(vec![
        ("site", proxy(Some("example.com"), &["/"], &[])),
        ("default", proxy(None, &["/"], &[])),
    ]);
    let mut c = ctx();
    let ((name, _), _) = find_route("EXAMPLE.Com", "/", &routes, 0, &mut c).ok().unwrap();
    assert_eq!(name.as_str(), "site");
    assert_eq!(c.sni, Some(String::from("example.com")));
    assert_eq!(routed(&routes, "unknown.org", "/"), ok("default", "/"));
}

#[test]
fn host_bucket_is_tried_before_the_default_one() {
    let routes = table(vec![
        ("default", proxy(None, &["= /x"], &[])),
        ("site", proxy(Some("example.com"), &["/"], &[])),
    ]);
    assert_eq!(routed(&routes, "example.com", "/x"), ok("site", "/x"));
    assert_eq!(routed(&routes, "", "/x"), ok("default", "/x"));
}

#[test]
fn longest_prefix_wins() {
    let routes = table(vec![
        ("root", proxy(None, &["/"], &[])),
        ("api", proxy(None, &["/api"], &[])),
        ("v2", proxy(None, &["/api/v2"], &[])),
    ]);
    assert_eq!(routed(&routes, "", "/api/v2/users"), ok("v2", "/api/v2/users"));
    assert_eq!(routed(&routes, "", "/api/v1"), ok("api", "/api/v1"));
    assert_eq!(routed(&routes, "", "/other"), ok("root", "/other"));
}

#[test]
fn exact_beats_regex_beats_prefix() {
    let routes = table(vec![
        ("prefix", proxy(None, &["/status/long/prefix"], &[])),
        ("regex", proxy(None, &["~ ^/status"], &[])),
        ("exact", proxy(None, &["= /status/long/prefix"], &[])),
    ]);
    assert_eq!(routed(&routes, "", "/status/long/prefix"), ok("exact", "/status/long/prefix"));
    assert_eq!(routed(&routes, "", "/status/long/prefix/x"), ok("regex", "/status/long/prefix/x"));
    let routes = table(vec![
        ("prefix", proxy(None, &["/files/"], &[])),
        ("other", proxy(None, &["~ \\.png$"], &[])),
    ]);
    assert_eq!(routed(&routes, "", "/files/a.txt"), ok("prefix", "/files/a.txt"));
    assert_eq!(routed(&routes, "", "/files/a.png"), ok("other", "/files/a.png"));
}

#[test]
fn declaration_order_breaks_ties() {
    let routes = table(vec![
        ("first", proxy(None, &["/same"], &[])),
        ("second", proxy(None, &["/same"], &[])),
    ]);
    assert_eq!(routed(&routes, "", "/same/x"), ok("first", "/same/x"));
    let routes = table(vec![
        ("second", proxy(None, &["~ a"], &[])),
        ("first", proxy(None, &["~ b"], &[])),
    ]);
    assert_eq!(routed(&routes, "", "/ab"), ok("second", "/ab"));
}

#[test]
fn best_rule_of_a_source_counts() {
    let routes = table(vec![
        ("a", proxy(None, &["/", "/deep/path/"], &[])),
        ("b", proxy(None, &["/deep/"], &[])),
    ]);
    assert_eq!(routed(&routes, "", "/deep/path/x"), ok("a", "/deep/path/x"));
    assert_eq!(routed(&routes, "", "/deep/x"), ok("b", "/deep/x"));
    let bucket = &routes.buckets[0];
    assert_eq!(pick_source(bucket, "/deep/path/x"), Some(0));
    assert_eq!(pick_source(bucket, "/deep/x"), Some(1));
    assert_eq!(pick_source(bucket, "nothing"), None);
    assert_eq!(select_source(&routes, "", "/deep/x"), Some((0, 1)));
    assert_eq!(select_source(&routes, "absent", "/deep/x"), Some((0, 1)));
    assert_eq!(select_source(&routes, "", "nothing"), None);
}

#[test]
fn break_rewrite_keeps_the_source() {
    let routes = table(vec![
        ("docs", proxy(None, &["/docs/"], &["^/docs/(.*)$ /api/$1 break"])),
        ("api", proxy(None, &["/api/"], &[])),
    ]);
    assert_eq!(routed(&routes, "", "/docs/intro"), ok("docs", "/api/intro"));
}

#[test]
fn last_rewrite_reroutes_to_the_other_source() {
    let routes = table(vec![
        ("docs", proxy(None, &["/docs/"], &["^/docs/(.*)$ /api/$1 last"])),
        ("api", proxy(None, &["/api/"], &[])),
    ]);
    assert_eq!(routed(&routes, "", "/docs/intro"), ok("api", "/api/intro"));
}

#[test]
fn first_matching_rewrite_decides() {
    let routes = table(vec![(
        "s",
        proxy(None, &["/"], &["^/never /x break", "^/a /first break", "^/a /second break"]),
    )]);
    assert_eq!(routed(&routes, "", "/a"), ok("s", "/first"));
    assert_eq!(routed(&routes, "", "/b"), ok("s", "/b"));
}

#[test]
fn break_rewrite_ends_the_evaluation() {
    let routes = table(vec![("s", proxy(None, &["/"], &["^/a /b break", "^/b /c break"]))]);
    assert_eq!(routed(&routes, "", "/a"), ok("s", "/b"));
}

#[test]
fn rewrite_replaces_every_match() {
    let routes = table(vec![("s", proxy(None, &["/"], &["a+ b break"]))]);
    assert_eq!(routed(&routes, "", "/aa/xa"), ok("s", "/b/xb"));
}

#[test]
fn self_referencing_last_rewrite_fails_with_loop_exceeded() {
    let routes = table(vec![("loop", proxy(None, &["/"], &["^/(.*)$ /$1 last"]))]);
    let mut c = ctx();
    let r = find_route("", "/x", &routes, 0, &mut c);
    assert_eq!(r.err(), Some(RouteError::RewriteLoopExceeded));
    assert_eq!(c.sni, None);
}

#[test]
fn rewrite_chain_may_be_nine_long_and_no_longer() {
    let chain = proxy(None, &["~ ^/x{1,}$"], &["^/x(x*)$ /$1 last"]);
    let routes = table(vec![("end", proxy(None, &["= /"], &[])), ("chain", chain)]);
    assert_eq!(routed(&routes, "", "/xxxxxxxxx"), ok("end", "/"));
    assert_eq!(routed(&routes, "", "/xxxxxxxxxx"), Err(RouteError::RewriteLoopExceeded));
    assert_eq!(MAX_DEPTH, 10);
}

#[test]
fn depth_at_the_ceiling_fails_at_once() {
    let routes = table(vec![("a", proxy(None, &["/"], &[]))]);
    let mut c = ctx();
    assert_eq!(
        find_route("", "/", &routes, 10, &mut c).err(),
        Some(RouteError::RewriteLoopExceeded)
    );
    assert!(find_route("", "/", &routes, 9, &mut c).is_ok());
    assert_eq!(resolve_route(&routes, "", "/", 11).err(), Some(RouteError::RewriteLoopExceeded));
}

#[test]
fn start_source_is_not_matched_by_location() {
    let routes = table(vec![
        ("a", proxy(None, &["/a/"], &["^/moved/(.*)$ /b/$1 last", "^/keep /kept break"])),
        ("b", proxy(None, &["/b/"], &[])),
    ]);
    let start = &routes.buckets[0].sources[0];
    let mut c = ctx();
    let ((name, _), uri) =
        find_route_with_start("", "/zzz", &routes, 0, &mut c, (&start.0, &start.1)).ok().unwrap();
    assert_eq!((name.as_str(), uri.as_str()), ("a", "/zzz"));
    assert_eq!(c.sni, None);
    let ((name, _), uri) =
        find_route_with_start("", "/keep", &routes, 0, &mut c, (&start.0, &start.1)).ok().unwrap();
    assert_eq!((name.as_str(), uri.as_str()), ("a", "/kept"));
    let ((name, _), uri) =
        find_route_with_start("", "/moved/x", &routes, 0, &mut c, (&start.0, &start.1))
            .ok()
            .unwrap();
    assert_eq!((name.as_str(), uri.as_str()), ("b", "/b/x"));
    assert_eq!(c.sni, Some(String::new()));
    let r = find_route_with_start("", "/moved/x", &routes, 9, &mut c, (&start.0, &start.1));
    assert_eq!(r.err(), Some(RouteError::RewriteLoopExceeded));
    let found = resolve_from_index(&routes, "", "/moved/x", 0, 0, 0).ok().unwrap();
    assert_eq!((found.bucket, found.source, found.uri.as_str()), (0, 1, "/b/x"));
}

#[test]
fn rewrite_engine_reports_the_flag() {
    let rules = rewrites(&["^/a$ /b last", "^/c$ /d break"]);
    assert!(matches!(apply_rewrites(&rules, "/a"), RewriteOutcome::Last(u) if u == "/b"));
    assert!(matches!(apply_rewrites(&rules, "/c"), RewriteOutcome::Break(u) if u == "/d"));
    assert!(matches!(apply_rewrites(&rules, "/e"), RewriteOutcome::Unchanged));
    assert!(matches!(apply_rewrites(&None, "/a"), RewriteOutcome::Unchanged));
}

#[test]
fn score_goes_by_kind_and_prefix_length() {
    let rules = locations(&["/api/", "= /x", "~ ^/y", "/caf\u{e9}"]);
    assert_eq!(score_for(&rules[0], true), (1, 5));
    assert_eq!(score_for(&rules[1], true), (3, 0));
    assert_eq!(score_for(&rules[2], true), (2, 0));
    assert_eq!(score_for(&rules[3], true), (1, 5));
    for rule in &rules {
        assert_eq!(score_for(rule, false), (0, 0));
    }
}

#[test]
fn matched_rule_keeps_its_flag() {
    let rules = rewrites(&["a b last", "a b break"]).unwrap();
    let last = rewritten(&rules[0], String::from("/n"));
    assert!(matches!(last, RewriteOutcome::Last(u) if u == "/n"));
    let kept = rewritten(&rules[1], String::from("/n"));
    assert!(matches!(kept, RewriteOutcome::Break(u) if u == "/n"));
}

#[test]
fn duplicate_name_in_a_bucket_is_refused() {
    let mut routes = Routes::new();
    assert!(routes.insert(String::from("a"), proxy(None, &["/1"], &[])));
    assert!(!routes.insert(String::from("a"), proxy(None, &["/2"], &[])));
    assert!(routes.insert(String::from("a"), proxy(Some("example.com"), &["/3"], &[])));
    assert!(routes.insert(String::from("b"), proxy(None, &["/4"], &[])));
    assert_eq!(routes.buckets.len(), 2);
    assert_eq!(routes.buckets[0].sni, "");
    assert_eq!(routes.buckets[0].sources.len(), 2);
    assert_eq!(routes.buckets[1].sni, "example.com");
    assert_eq!(routes.bucket_index("example.com"), Some(1));
    assert_eq!(routes.bucket_index("example.org"), None);
    assert_eq!(routes.source_index(0, "b"), Some(1));
    assert_eq!(routes.source_index(1, "b"), None);
    assert_eq!(routed(&routes, "", "/2"), Err(RouteError::NoRoute));
}

#[test]
fn table_is_built_from_sources_in_order() {
    let routes = Routes::from_sources(vec![
        (String::from("x"), proxy(Some("h"), &["/"], &[])),
        (String::from("y"), proxy(None, &["/"], &[])),
        (String::from("z"), proxy(Some("h"), &["/"], &[])),
        (String::from("x"), proxy(Some("h"), &["/dup"], &[])),
    ]);
    assert_eq!(routes.buckets.len(), 2);
    assert_eq!(routes.buckets[0].sni, "h");
    let names: Vec<&str> = routes.buckets[0].sources.iter().map(|e| e.0.as_str()).collect();
    assert_eq!(names, vec!["x", "z"]);
    assert_eq!(routes.buckets[1].sources.len(), 1);
}

#[test]
fn error_statuses() {
    assert_eq!(RouteError::NoRoute.status(), 502);
    assert_eq!(RouteError::RewriteLoopExceeded.status(), 502);
    assert_eq!(RouteError::FallbackNotFound.status(), 502);
    assert_eq!(RouteError::UpstreamAddressError.status(), 502);
    assert_eq!(RouteError::UriRewriteInvalid.status(), 502);
    assert_eq!(RouteError::StaticFileMissing.status(), 404);
}

#[test]
fn static_path_strips_query_and_defaults_to_index() {
    assert_eq!(static_file_path("/var/www/", "/"), Some(String::from("/var/www/index.html")));
    assert_eq!(
        static_file_path("/var/www/", "/docs/?page=2"),
        Some(String::from("/var/www/docs/index.html"))
    );
    assert_eq!(
        static_file_path("/var/www/", "/a.css?v=1?w=2"),
        Some(String::from("/var/www/a.css"))
    );
    assert_eq!(static_file_path("/var/www/", "/a/b.js"), Some(String::from("/var/www/a/b.js")));
    assert_eq!(static_file_path("/var/www/", ""), Some(String::from("/var/www/")));
    assert_eq!(static_file_path("", "/a"), None);
}

#[test]
fn static_path_stays_below_the_root() {
    let below = |uri: &str| static_file_path("/srv/www/", uri);
    assert_eq!(below("//etc/passwd"), Some(String::from("/srv/www/etc/passwd")));
    assert_eq!(below("/../etc/passwd"), None);
    assert_eq!(below(".."), None);
    assert_eq!(below("/a/../../b"), None);
    assert_eq!(below("/./../x"), None);
    assert_eq!(below("/a/../../b/c/d"), None);
    assert_eq!(below("/a/b/../../../c"), None);
    assert_eq!(below("/..?x=1"), None);
    assert_eq!(below("/a/../b.html"), Some(String::from("/srv/www/a/../b.html")));
    assert_eq!(below("/a/.."), Some(String::from("/srv/www/a/..")));
    assert_eq!(below("/a/..?x=1"), Some(String::from("/srv/www/a/..")));
    assert_eq!(below("/a/../"), Some(String::from("/srv/www/a/../index.html")));
    assert_eq!(below("/a/b/../../c"), Some(String::from("/srv/www/a/b/../../c")));
    assert_eq!(below("/a//../x"), Some(String::from("/srv/www/a//../x")));
    assert_eq!(below("/..a/b.."), Some(String::from("/srv/www/..a/b..")));
    assert_eq!(below("/a/./b"), Some(String::from("/srv/www/a/./b")));
    assert_eq!(below("/?next=../x"), Some(String::from("/srv/www/index.html")));
    assert_eq!(static_file_path("/", "/etc/hosts"), Some(String::from("/etc/hosts")));
}

#[test]
fn path_leaves_the_root_only_from_its_top() {
    let leaves = |path: &str| path_leaves_root(&path.chars().collect());
    assert!(leaves(".."));
    assert!(leaves("a/../.."));
    assert!(leaves("../a"));
    assert!(leaves("a/../../a/b"));
    assert!(leaves("./.."));
    assert!(leaves("/.."));
    assert!(!leaves(""));
    assert!(!leaves("a/.."));
    assert!(!leaves("a/b/../.."));
    assert!(!leaves("a/./b/../c"));
    assert!(!leaves("..."));
    assert!(!leaves("a/..b/c.."));
}

#[test]
fn static_source_is_available_when_its_file_exists() {
    let source = |root: &str| StaticServer {
        root: String::from(root),
        sni: None,
        location: locations(&["/"]),
        rewrite: None,
        fallback: Vec::new(),
        headers_request: None,
        headers_response: None,
    };
    assert!(check_static_status(&source("/dev/"), "/null"));
    assert!(check_static_status(&source("/dev/"), "/null?x=1"));
    assert!(!check_static_status(&source("/dev/"), "/no-such-file-here"));
    assert!(!check_static_status(&source("/no-such-root-here/"), "/"));
    assert!(!check_static_status(&source(""), "/null"));
    assert!(check_static_status(&source("/dev/"), "//null"));
    assert!(check_static_status(&source("/dev/"), "/./null"));
    let through_missing = std::path::Path::new("/dev/no-such-dir/../null").exists();
    assert_eq!(check_static_status(&source("/dev/"), "/no-such-dir/../null"), through_missing);
    assert!(!check_static_status(&source("/dev/x/"), "/../null"));
}

#[test]
fn static_source_serves_only_a_file_that_was_found() {
    let file = Some(String::from("/var/www/index.html"));
    assert!(static_available(&file, true));
    assert!(!static_available(&file, false));
    assert!(!static_available(&None, true));
    assert!(!static_available(&None, false));
}
