//! The fallback search between sources.

use std::cell::Cell;

use pingpong::config::location::Location;
use pingpong::config::proxy::Proxy;
use pingpong::config::rewrite::Rewrite;
use pingpong::config::source::Source;
use pingpong::fallback::{resolve_with_fallback, SearchMove, SearchState, MAX_ATTEMPTS};
use pingpong::util::route::{resolve_route, Resolved, RouteError};
use pingpong::util::table::Routes;

fn source(port: u16, locs: &[&str], rws: &[&str], fallback: &[&str]) -> Source {
    Source::Proxy(Proxy {
        ip: String::from("127.0.0.1"),
        host: None,
        port,
        ssl: false,
        sni: None,
        location: locs
            .iter()
            .map(|l| Location::new(String::from(*l), "t.toml").ok().unwrap())
            .collect(),
        rewrite: if rws.is_empty() {
            None
        } else {
            Some(
                rws.iter().map(|r| Rewrite::new(String::from(*r), "t.toml").ok().unwrap()).collect(),
            )
        },
        fallback: fallback.iter().map(|f| String::from(*f)).collect(),
        headers_request: None,
        headers_response: None,
    })
}

fn port_of(s: &Source) -> u16 {
    match s {
        Source::Proxy(p) => p.port,
        Source::Static(_) => 0,
    }
}

fn table(entries: Vec<(&str, Source)>) -> Routes {
    let mut routes = Routes::new();
    for (name, s) in entries {
        assert!(routes.insert(String::from(name), s));
    }
    routes
}

fn name_of(routes: &Routes, found: &Resolved) -> String {
    routes.buckets[found.bucket].sources[found.source].0.clone()
}

/// Runs the search for `uri`, with the sources on the given ports up.
fn search(routes: &Routes, uri: &str, up: &[u16]) -> (Result<(String, String), RouteError>, u32) {
    let first = resolve_route(routes, "", uri, 0).ok().unwrap();
    let asked = Cell::new(0u32);
    let r = resolve_with_fallback(routes, "", first, |s: &Source, _: &str| {
        asked.set(asked.get() + 1);
        up.contains(&port_of(s))
    });
    (r.map(|found| (name_of(routes, &found), found.uri)), asked.get())
}

fn ok(name: &str, uri: &str) -> Result<(String, String), RouteError> {
    Ok((String::from(name), String::from(uri)))
}

#[test]
fn available_primary_is_used() {
    let routes = table(vec![
        ("main", source(1, &["/"], &[], &["spare"])),
        ("spare", source(2, &["/spare"], &[], &[])),
    ]);
    assert_eq!(search(&routes, "/x", &[1, 2]), (ok("main", "/x"), 1));
}

#[test]
fn unavailable_primary_falls_back_to_available_source() {
    let routes = table(vec![
        ("main", source(1, &["/"], &[], &["spare"])),
        ("spare", source(2, &["/spare"], &[], &[])),
    ]);
    assert_eq!(search(&routes, "/x", &[2]), (ok("spare", "/x"), 2));
}

#[test]
fn fallbacks_are_tried_in_declared_order() {
    let routes = table(vec![
        ("main", source(1, &["/"], &[], &["b", "c", "d"])),
        ("d", source(4, &["/d"], &[], &[])),
        ("c", source(3, &["/c"], &[], &[])),
        ("b", source(2, &["/b"], &[], &[])),
    ]);
    assert_eq!(search(&routes, "/x", &[3, 4]), (ok("c", "/x"), 3));
    assert_eq!(search(&routes, "/x", &[4]), (ok("d", "/x"), 4));
    assert_eq!(search(&routes, "/x", &[2, 3, 4]), (ok("b", "/x"), 2));
}

#[test]
fn all_unavailable_still_returns_a_source() {
    let routes = table(vec![
        ("main", source(1, &["/"], &[], &["spare"])),
        ("spare", source(2, &["/spare"], &[], &[])),
    ]);
    let (r, asked) = search(&routes, "/x", &[]);
    assert_eq!(r, ok("spare", "/x"));
    assert_eq!(asked, 11);
}

#[test]
fn unavailable_source_without_fallback_is_asked_ten_times() {
    let routes = table(vec![("only", source(1, &["/"], &[], &[]))]);
    assert_eq!(search(&routes, "/x", &[]), (ok("only", "/x"), 10));
    assert_eq!(MAX_ATTEMPTS, 10);
}

#[test]
fn search_goes_on_from_the_last_candidate() {
    let routes = table(vec![
        ("a", source(1, &["/"], &[], &["b"])),
        ("b", source(2, &["/b"], &[], &["c"])),
        ("c", source(3, &["/c"], &[], &[])),
    ]);
    assert_eq!(search(&routes, "/x", &[3]), (ok("c", "/x"), 4));
}

#[test]
fn missing_fallback_name_is_an_error() {
    let routes = table(vec![("main", source(1, &["/"], &[], &["ghost"]))]);
    assert_eq!(search(&routes, "/x", &[]), (Err(RouteError::FallbackNotFound), 1));
    assert_eq!(search(&routes, "/x", &[1]), (ok("main", "/x"), 1));
}

#[test]
fn fallback_applies_its_own_rewrites() {
    let routes = table(vec![
        ("main", source(1, &["/"], &[], &["spare"])),
        ("spare", source(2, &["/spare"], &["^/(.*)$ /mirror/$1 break"], &[])),
    ]);
    assert_eq!(search(&routes, "/x", &[2]), (ok("spare", "/mirror/x"), 2));
}

#[test]
fn fallback_with_last_rewrite_is_routed_again() {
    let routes = table(vec![
        ("main", source(1, &["/app"], &[], &["spare"])),
        ("spare", source(2, &["/spare"], &["^/app/(.*)$ /static/$1 last"], &[])),
        ("files", source(3, &["/static/"], &[], &[])),
    ]);
    assert_eq!(search(&routes, "/app/x", &[3]), (ok("files", "/static/x"), 2));
}

#[test]
fn failing_fallback_resolution_ends_the_search() {
    let routes = table(vec![
        ("main", source(1, &["/app"], &[], &["spare"])),
        ("spare", source(2, &["/spare"], &["^/app/(.*)$ /nowhere/$1 last"], &[])),
    ]);
    assert_eq!(search(&routes, "/app/x", &[2]), (Err(RouteError::NoRoute), 1));
}

#[test]
fn machine_steps_follow_the_answers() {
    let routes = table(vec![
        ("main", source(1, &["/"], &[], &["spare"])),
        ("spare", source(2, &["/spare"], &[], &[])),
    ]);
    let first = resolve_route(&routes, "", "/x", 0).ok().unwrap();
    let state = SearchState::start(first);
    assert_eq!(port_of(state.source(&routes)), 1);
    let state = match state.step(&routes, "", false) {
        SearchMove::Probe(next) => next,
        SearchMove::Done(_) => panic!("the fallback list was not walked"),
    };
    assert_eq!(port_of(state.source(&routes)), 2);
    assert_eq!((state.attempts, state.origin, state.next), (0, Some((0, 0)), 1));
    let state = match state.step(&routes, "", false) {
        SearchMove::Probe(next) => next,
        SearchMove::Done(_) => panic!("the search ended early"),
    };
    assert_eq!((state.attempts, state.origin, state.next), (1, None, 0));
    assert_eq!(state.candidate.source, 1);
    match state.step(&routes, "", true) {
        SearchMove::Done(Ok(found)) => assert_eq!(name_of(&routes, &found), "spare"),
        _ => panic!("an available candidate was not served"),
    }
}

#[test]
fn machine_gives_up_after_the_last_attempt() {
    let routes = table(vec![("only", source(1, &["/"], &[], &[]))]);
    let first = resolve_route(&routes, "", "/x", 0).ok().unwrap();
    let state = SearchState { candidate: first, attempts: 9, origin: None, next: 0 };
    match state.step(&routes, "", false) {
        SearchMove::Done(Ok(found)) => assert_eq!(found.uri, "/x"),
        _ => panic!("the search went on"),
    }
}

#[test]
fn dangling_fallback_is_found_before_serving() {
    let closed = table(vec![
        ("main", source(1, &["/"], &[], &["spare", "main"])),
        ("spare", source(2, &["/spare"], &[], &[])),
    ]);
    assert!(closed.fallbacks_closed());
    let dangling = table(vec![
        ("main", source(1, &["/"], &[], &["spare", "ghost"])),
        ("spare", source(2, &["/spare"], &[], &[])),
    ]);
    assert!(!dangling.fallbacks_closed());
    assert!(Routes::new().fallbacks_closed());
}

#[test]
fn fallback_of_another_host_does_not_count() {
    let mut routes = Routes::new();
    assert!(routes.insert(String::from("main"), source(1, &["/"], &[], &["spare"])));
    let mut other = source(2, &["/"], &[], &[]);
    if let Source::Proxy(p) = &mut other {
        p.sni = Some(String::from("example.com"));
    }
    assert!(routes.insert(String::from("spare"), other));
    assert!(!routes.fallbacks_closed());
    assert_eq!(search(&routes, "/x", &[2]), (Err(RouteError::FallbackNotFound), 1));
}

#[test]
fn prober_is_handed_the_decoded_path() {
    let routes = table(vec![("only", source(1, &["/"], &[], &[]))]);
    let seen = std::cell::RefCell::new(Vec::new());
    let ask = |uri: &str| {
        let first = resolve_route(&routes, "", uri, 0).ok().unwrap();
        let r = resolve_with_fallback(&routes, "", first, |_: &Source, path: &str| {
            seen.borrow_mut().push(String::from(path));
            true
        });
        r.ok().unwrap().uri
    };
    assert_eq!(ask("/a.css%3Fv%3D1"), "/a.css%3Fv%3D1");
    assert_eq!(ask("/a%2520b"), "/a%2520b");
    assert_eq!(ask("/bad%FF"), "/bad%FF");
    assert_eq!(*seen.borrow(), vec!["/a.css?v=1", "/a%20b", "/bad%FF"]);
}
