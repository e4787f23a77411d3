//! Reading `location` and `rewrite` entries.

use pingpong::config::error::ConfigError;
use pingpong::config::location::{parse_locations, Location};
use pingpong::config::pattern::Pattern;
use pingpong::config::rewrite::{parse_rewrites, Rewrite};

#[test]
fn plain_location_is_a_prefix() {
    let l = Location::new(String::from("/api"), "c.toml").ok().unwrap();
    assert!(matches!(&l, Location::Start(p) if p == "/api"));
    assert!(l.matches("/api"));
    assert!(l.matches("/api/users"));
    assert!(l.matches("/apix"));
    assert!(!l.matches("/ap"));
    assert!(!l.matches("x/api"));
}

#[test]
fn caret_location_is_a_prefix_ending_in_slash() {
    let l = Location::new(String::from("^ /api"), "c.toml").ok().unwrap();
    assert!(matches!(&l, Location::Start(p) if p == "/api/"));
    assert!(l.matches("/api/users"));
    assert!(!l.matches("/api"));
    let kept = Location::new(String::from("^ /api/"), "c.toml").ok().unwrap();
    assert!(matches!(&kept, Location::Start(p) if p == "/api/"));
}

#[test]
fn equal_location_is_exact() {
    let l = Location::new(String::from("= /health"), "c.toml").ok().unwrap();
    assert!(matches!(&l, Location::Equal(p) if p == "/health"));
    assert!(l.matches("/health"));
    assert!(!l.matches("/health/"));
    assert!(!l.matches("/healt"));
}

#[test]
fn tilde_location_is_a_regex_search() {
    let l = Location::new(String::from("~ \\.php$"), "c.toml").ok().unwrap();
    assert!(matches!(&l, Location::Regex(p) if p.as_str() == "\\.php$"));
    assert!(l.matches("/index.php"));
    assert!(l.matches("/a/b.php"));
    assert!(!l.matches("/index.php5"));
}

#[test]
fn malformed_location_is_a_syntax_error() {
    for entry in ["api", "^", "= /a /b", "? /a", "", "^  /a"] {
        let e = Location::new(String::from(entry), "conf/c.toml").err().unwrap();
        assert!(matches!(&e, ConfigError::LocationSyntax { path, location }
            if path == "conf/c.toml" && location == entry));
        assert_eq!(e.message(), format!("conf/c.toml Wrong syntax: location = {}", entry));
    }
}

#[test]
fn bad_location_regex_is_reported_with_the_file() {
    let e = Location::new(String::from("~ (unclosed"), "c.toml").err().unwrap();
    assert!(matches!(&e, ConfigError::BadPattern { path, .. } if path == "c.toml"));
    assert!(e.message().starts_with("c.toml "));
    assert!(e.message().len() > "c.toml ".len());
}

#[test]
fn rewrite_without_flag_is_last() {
    let r = Rewrite::new(String::from("^/old/(.*)$ /new/$1"), "c.toml").ok().unwrap();
    assert!(r.is_last());
    assert!(!r.is_break());
    assert_eq!(r.regex_as_ref().as_str(), "^/old/(.*)$");
    assert_eq!(r.replace_as_ref(), "/new/$1");
}

#[test]
fn rewrite_flags_are_read() {
    let last = Rewrite::new(String::from("^/a /b last"), "c.toml").ok().unwrap();
    assert!(matches!(&last, Rewrite::Last(..)));
    assert!(last.is_last() && !last.is_break());
    let brk = Rewrite::new(String::from("^/a /b break"), "c.toml").ok().unwrap();
    assert!(matches!(&brk, Rewrite::Break(..)));
    assert!(brk.is_break() && !brk.is_last());
}

#[test]
fn malformed_rewrite_is_a_syntax_error() {
    for entry in ["^/a", "^/a /b stop", "^/a /b last x", "", "^/a /b LAST"] {
        let e = Rewrite::new(String::from(entry), "c.toml").err().unwrap();
        assert!(matches!(&e, ConfigError::RewriteSyntax { path, rewrite }
            if path == "c.toml" && rewrite == entry));
        assert_eq!(e.message(), format!("c.toml Wrong syntax: rewrite = {}", entry));
    }
}

#[test]
fn bad_rewrite_regex_is_reported_with_the_file() {
    let e = Rewrite::new(String::from("[a /b last"), "c.toml").err().unwrap();
    assert!(matches!(&e, ConfigError::BadPattern { path, .. } if path == "c.toml"));
}

#[test]
fn pattern_keeps_its_source_and_matches_by_search() {
    let p = Pattern::new("b+", "c.toml").ok().unwrap();
    assert_eq!(p.as_str(), "b+");
    let l = Location::Regex(p);
    assert!(l.matches("abbbc"));
    assert!(!l.matches("ac"));
    assert!(Pattern::new("\\w{1000}", "c.toml").is_err());
}

#[test]
fn missing_locations_default_to_everything() {
    let rules = parse_locations(None, "c.toml").ok().unwrap();
    assert_eq!(rules.len(), 1);
    assert!(matches!(&rules[0], Location::Start(p) if p == "/"));
    assert!(rules[0].matches("/anything"));
}

#[test]
fn first_refused_location_is_reported() {
    let entries = vec![String::from("/ok"), String::from("bad"), String::from("~ (")];
    let e = parse_locations(Some(entries), "c.toml").err().unwrap();
    assert!(matches!(&e, ConfigError::LocationSyntax { location, .. } if location == "bad"));
    let rules = parse_locations(Some(vec![String::from("/a"), String::from("= /b")]), "c.toml")
        .ok()
        .unwrap();
    assert_eq!(rules.len(), 2);
    assert!(matches!(&rules[1], Location::Equal(p) if p == "/b"));
    assert_eq!(parse_locations(Some(vec![]), "c.toml").ok().unwrap().len(), 0);
}

#[test]
fn rewrites_are_read_in_order() {
    assert!(parse_rewrites(None, "c.toml").ok().unwrap().is_none());
    let rules = parse_rewrites(
        Some(vec![String::from("^/a /b break"), String::from("^/c /d")]),
        "c.toml",
    )
    .ok()
    .unwrap()
    .unwrap();
    assert_eq!(rules.len(), 2);
    assert!(rules[0].is_break());
    assert_eq!(rules[1].replace_as_ref(), "/d");
    let e = parse_rewrites(Some(vec![String::from("^/a /b"), String::from("( /x")]), "c.toml")
        .err()
        .unwrap();
    assert!(matches!(&e, ConfigError::BadPattern { .. }));
}

#[test]
fn read_errors_have_their_messages() {
    let e = ConfigError::CannotRead { path: String::from("/etc/x.toml") };
    assert_eq!(e.message(), "Cannot read file /etc/x.toml");
    let e = ConfigError::NoDirectory { path: String::from("") };
    assert_eq!(e.message(), " has no directory");
    let e = ConfigError::BadPattern { path: String::from("p"), detail: String::from("d") };
    assert_eq!(e.message(), "p d");
}
