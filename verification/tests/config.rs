//! Conversion of the stated configuration.

use pingpong::config::config::{Config, ConfigRaw, ServerSettings};
use pingpong::config::error::ConfigError;
use pingpong::config::import_able::{Import, Importable, Imported};
use pingpong::config::location::Location;
use pingpong::config::proxy::{Proxy, ProxyRaw, Server, ServerRaw, Ssl, DEFAULT_CHECK_DURATION};
use pingpong::config::rewrite::RewriteFlag;
use pingpong::config::source::{merge_err, Kind, Source, SourceRaw};
use pingpong::config::static_server::{StaticServer, StaticServerRaw};

fn strings(items: &[&str]) -> Vec<String> {
    items.iter().map(|s| String::from(*s)).collect()
}

fn proxy_raw() -> ProxyRaw {
    ProxyRaw {
        source_type: None,
        ip: String::from("10.0.0.1"),
        host: Some(String::from("Backend.Internal")),
        port: 8443,
        ssl: true,
        sni: Some(String::from("Example.COM")),
        location: Some(strings(&["/api", "= /health"])),
        rewrite: Some(strings(&["^/api/(.*)$ /$1 break"])),
        fallback: Some(strings(&["spare"])),
        headers_request: Some(vec![(String::from("X-A"), String::from("1"))]),
        headers_response: None,
    }
}

fn static_raw(root: &str) -> StaticServerRaw {
    StaticServerRaw {
        source_type: Some(String::from("static")),
        root: String::from(root),
        sni: None,
        location: None,
        rewrite: None,
        fallback: None,
        headers_request: None,
        headers_response: None,
    }
}

#[test]
fn proxy_is_converted_as_stated() {
    let p = Proxy::from_raw(proxy_raw(), "/etc/pingpong/pingpong.toml").ok().unwrap();
    assert_eq!(p.ip, "10.0.0.1");
    assert_eq!(p.host, Some(String::from("Backend.Internal")));
    assert_eq!((p.port, p.ssl), (8443, true));
    assert_eq!(p.sni, Some(String::from("example.com")));
    assert_eq!(p.location.len(), 2);
    assert!(matches!(&p.location[0], Location::Start(l) if l == "/api"));
    assert!(matches!(&p.location[1], Location::Equal(l) if l == "/health"));
    let rewrite = p.rewrite.unwrap();
    assert_eq!(rewrite.len(), 1);
    assert!(rewrite[0].is_break());
    assert_eq!(p.fallback, strings(&["spare"]));
    assert_eq!(p.headers_request, Some(vec![(String::from("X-A"), String::from("1"))]));
    assert_eq!(p.headers_response, None);
}

#[test]
fn proxy_defaults_apply() {
    let mut raw = proxy_raw();
    raw.sni = None;
    raw.location = None;
    raw.rewrite = None;
    raw.fallback = None;
    let p = Proxy::from_raw(raw, "c.toml").ok().unwrap();
    assert_eq!(p.sni, None);
    assert_eq!(p.location.len(), 1);
    assert!(matches!(&p.location[0], Location::Start(l) if l == "/"));
    assert!(p.rewrite.is_none());
    assert!(p.fallback.is_empty());
}

#[test]
fn refused_location_comes_before_refused_rewrite() {
    let mut raw = proxy_raw();
    raw.location = Some(strings(&["/ok", "nonsense"]));
    raw.rewrite = Some(strings(&["only-one-field"]));
    let e = Proxy::from_raw(raw, "c.toml").err().unwrap();
    assert_eq!(e.message(), "c.toml Wrong syntax: location = nonsense");
    let mut raw = proxy_raw();
    raw.rewrite = Some(strings(&["^/a /b", "only-one-field"]));
    let e = Proxy::from_raw(raw, "c.toml").err().unwrap();
    assert_eq!(e.message(), "c.toml Wrong syntax: rewrite = only-one-field");
}

#[test]
fn static_root_is_resolved_against_the_file() {
    let s = StaticServer::from_raw(static_raw("www"), "/etc/pingpong/pingpong.toml").ok().unwrap();
    assert_eq!(s.root, "/etc/pingpong/www/");
    let s = StaticServer::from_raw(static_raw("www/"), "/etc/pingpong/").ok().unwrap();
    assert_eq!(s.root, "/etc/pingpong/www/");
    let s = StaticServer::from_raw(static_raw("/srv/www"), "/etc/pingpong/pingpong.toml").ok().unwrap();
    assert_eq!(s.root, "/srv/www/");
    assert_eq!(s.location.len(), 1);
    assert!(s.fallback.is_empty());
}

#[test]
fn static_source_needs_a_directory() {
    let e = StaticServer::from_raw(static_raw("www"), "").err().unwrap();
    assert!(matches!(&e, ConfigError::NoDirectory { path } if path.is_empty()));
}

#[test]
fn source_keeps_its_kind() {
    let p = Source::from_raw(SourceRaw::Proxy(proxy_raw()), "c.toml").ok().unwrap();
    assert!(p.is_proxy() && !p.is_static());
    assert_eq!(p.sni_as_ref(), &Some(String::from("example.com")));
    assert_eq!(p.location_as_ref().len(), 2);
    assert_eq!(p.rewrite_as_ref().as_ref().map(|r| r.len()), Some(1));
    assert_eq!(p.fallback_as_ref(), &strings(&["spare"]));
    assert!(p.headers_request_as_ref().is_some());
    assert!(p.headers_response_as_ref().is_none());
    let s = Source::from_raw(SourceRaw::Static(static_raw("www")), "/etc/c.toml").ok().unwrap();
    assert!(s.is_static() && !s.is_proxy());
    assert_eq!(s.sni_as_ref(), &None);
    assert!(matches!(&s, Source::Static(f) if f.root == "/etc/www/"));
}

fn no<T>(message: &str) -> Result<T, String> {
    Err(String::from(message))
}

fn decided(stated: Option<&str>, proxy: Result<u8, String>, fixed: Result<char, String>) -> String {
    match SourceRaw::decide(stated.map(String::from), proxy, fixed) {
        Ok(Kind::Proxy(p)) => format!("proxy {}", p),
        Ok(Kind::Static(s)) => format!("static {}", s),
        Err(message) => message,
    }
}

#[test]
fn kind_is_decided_by_what_is_stated_and_what_reads() {
    assert_eq!(decided(None, Ok(1), no("no root")), "proxy 1");
    assert_eq!(decided(None, Ok(1), Ok('s')), "proxy 1");
    assert_eq!(decided(Some("Proxy"), Ok(1), Ok('s')), "proxy 1");
    assert_eq!(decided(Some("STATIC"), Ok(1), Ok('s')), "static s");
    assert_eq!(decided(None, no("no ip"), Ok('s')), "static s");
    assert_eq!(decided(None, no("no ip"), no("no root")), "no ip\nno root");
    assert_eq!(decided(Some("proxy"), no("no ip"), no("no root")), "no ip");
    assert_eq!(decided(Some("proxy"), no("no ip"), Ok('s')), "no ip");
    assert_eq!(decided(Some("static"), no("no ip"), no("no root")), "no root");
    assert_eq!(decided(Some("static"), Ok(1), no("no root")), "no root");
    assert_eq!(decided(Some("redis"), no("no ip"), no("no root")), "unknown source type");
    assert_eq!(decided(Some("redis"), Ok(1), Ok('s')), "unknown source type");
}

#[test]
fn messages_are_merged_line_by_line() {
    assert_eq!(merge_err(None, String::from("b")), "b");
    assert_eq!(merge_err(Some(String::from("a")), String::from("b")), "a\nb");
}

fn server_raw(sources: Vec<(&str, SourceRaw, &str)>) -> ServerRaw {
    ServerRaw {
        source: sources
            .into_iter()
            .map(|(name, value, path)| {
                (String::from(name), Imported { value, path: String::from(path) })
            })
            .collect(),
        ssl: Some(Ssl { cert: String::from("c.pem"), key: String::from("k.pem") }),
        threads: Some(4),
        check_status: None,
        check_duration: None,
    }
}

#[test]
fn server_converts_its_sources_in_order() {
    let raw = server_raw(vec![
        ("api", SourceRaw::Proxy(proxy_raw()), "/etc/pingpong/pingpong.toml"),
        ("site", SourceRaw::Static(static_raw("www")), "/etc/pingpong/sources/site.toml"),
    ]);
    let server = Server::from_raw(raw).ok().unwrap();
    let names: Vec<&str> = server.source.iter().map(|e| e.0.as_str()).collect();
    assert_eq!(names, vec!["api", "site"]);
    assert!(matches!(&server.source[1].1, Source::Static(f) if f.root == "/etc/pingpong/sources/www/"));
    assert!(!server.check_status);
    assert_eq!(server.check_duration, 1000);
    assert_eq!(DEFAULT_CHECK_DURATION, 1000);
    assert_eq!(server.threads, Some(4));
    assert_eq!(server.ssl.map(|s| (s.cert, s.key)), Some((String::from("c.pem"), String::from("k.pem"))));
}

#[test]
fn server_keeps_stated_health_settings() {
    let mut raw = server_raw(vec![]);
    raw.check_status = Some(true);
    raw.check_duration = Some(250);
    let server = Server::from_raw(raw).ok().unwrap();
    assert!(server.check_status);
    assert_eq!(server.check_duration, 250);
    assert!(server.source.is_empty());
}

#[test]
fn first_refused_source_is_reported() {
    let mut bad = proxy_raw();
    bad.location = Some(strings(&["~ ("]));
    let mut worse = proxy_raw();
    worse.location = Some(strings(&["???"]));
    let raw = server_raw(vec![
        ("ok", SourceRaw::Proxy(proxy_raw()), "a.toml"),
        ("bad", SourceRaw::Proxy(bad), "b.toml"),
        ("worse", SourceRaw::Proxy(worse), "c.toml"),
    ]);
    let e = Server::from_raw(raw).err().unwrap();
    assert!(matches!(&e, ConfigError::BadPattern { path, .. } if path == "b.toml"));
}

fn config_raw(server: Vec<(String, ServerRaw)>) -> ConfigRaw {
    ConfigRaw {
        server,
        log: Some(String::from("log/pingpong.log")),
        version: Some(2),
        pid_file: Some(String::from("/run/pingpong.pid")),
        upgrade_sock: None,
        user: Some(String::from("www")),
        group: None,
        threads: Some(8),
        work_stealing: Some(false),
        ca_file: None,
        grace_period_seconds: Some(30),
        graceful_shutdown_timeout_seconds: None,
        client_bind_to_ipv4: Some(strings(&["192.0.2.1"])),
        client_bind_to_ipv6: None,
        upstream_connect_offload_threadpools: Some(2),
        upstream_connect_offload_thread_per_pool: None,
    }
}

fn settings() -> ServerSettings {
    ServerSettings {
        version: 1,
        pid_file: String::from("/tmp/pingora.pid"),
        upgrade_sock: String::from("/tmp/pingora_upgrade.sock"),
        user: None,
        group: Some(String::from("nogroup")),
        threads: 1,
        work_stealing: true,
        ca_file: Some(String::from("/etc/ca.pem")),
        grace_period_seconds: None,
        graceful_shutdown_timeout_seconds: Some(5),
        client_bind_to_ipv4: vec![],
        client_bind_to_ipv6: strings(&["2001:db8::1"]),
        upstream_connect_offload_threadpools: None,
        upstream_connect_offload_thread_per_pool: Some(3),
    }
}

#[test]
fn config_converts_every_port() {
    let raw = config_raw(vec![
        (String::from("80"), server_raw(vec![("api", SourceRaw::Proxy(proxy_raw()), "c.toml")])),
        (String::from("443"), server_raw(vec![])),
    ]);
    let config = Config::from_raw(raw).ok().unwrap();
    let ports: Vec<&str> = config.server.iter().map(|e| e.0.as_str()).collect();
    assert_eq!(ports, vec!["80", "443"]);
    assert_eq!(config.server[0].1.source.len(), 1);
    assert_eq!(config.log, Some(String::from("log/pingpong.log")));
    assert_eq!(config.version, Some(2));
    assert_eq!(config.threads, Some(8));
    assert_eq!(config.user, Some(String::from("www")));
    assert_eq!(config.client_bind_to_ipv4, Some(strings(&["192.0.2.1"])));
}

#[test]
fn config_reports_the_first_refused_port() {
    let mut bad = proxy_raw();
    bad.rewrite = Some(strings(&["x"]));
    let raw = config_raw(vec![
        (String::from("80"), server_raw(vec![])),
        (String::from("81"), server_raw(vec![("bad", SourceRaw::Proxy(bad), "81.toml")])),
    ]);
    let e = Config::from_raw(raw).err().unwrap();
    assert_eq!(e.message(), "81.toml Wrong syntax: rewrite = x");
}

#[test]
fn stated_settings_replace_and_others_stay() {
    let config = Config::from_raw(config_raw(vec![])).ok().unwrap();
    let mut base = settings();
    config.merge_into_pingora_config(&mut base);
    assert_eq!(base.version, 2);
    assert_eq!(base.pid_file, "/run/pingpong.pid");
    assert_eq!(base.upgrade_sock, "/tmp/pingora_upgrade.sock");
    assert_eq!(base.user, Some(String::from("www")));
    assert_eq!(base.group, Some(String::from("nogroup")));
    assert_eq!(base.threads, 8);
    assert!(!base.work_stealing);
    assert_eq!(base.ca_file, Some(String::from("/etc/ca.pem")));
    assert_eq!(base.grace_period_seconds, Some(30));
    assert_eq!(base.graceful_shutdown_timeout_seconds, Some(5));
    assert_eq!(base.client_bind_to_ipv4, strings(&["192.0.2.1"]));
    assert_eq!(base.client_bind_to_ipv6, strings(&["2001:db8::1"]));
    assert_eq!(base.upstream_connect_offload_threadpools, Some(2));
    assert_eq!(base.upstream_connect_offload_thread_per_pool, Some(3));
}

#[test]
fn import_names_the_file_to_read() {
    let inline: Importable<u32> = Importable::Value(7);
    assert_eq!(inline.target("/etc/pingpong/pingpong.toml"), None);
    let got = inline.import("/etc/pingpong/pingpong.toml", None).ok().unwrap();
    assert_eq!((got.value, got.path.as_str()), (7, "/etc/pingpong/pingpong.toml"));
    let named: Importable<u32> = Importable::Import(Import { import: String::from("s/a.toml") }.import);
    assert_eq!(named.target("/etc/pingpong/pingpong.toml"), Some(String::from("/etc/pingpong/s/a.toml")));
    let got = named.clone().import("/etc/pingpong/pingpong.toml", Some(9)).ok().unwrap();
    assert_eq!((got.value, got.path.as_str()), (9, "/etc/pingpong/s/a.toml"));
    let e = named.clone().import("/etc/pingpong/pingpong.toml", None).err().unwrap();
    assert_eq!(e.message(), "Cannot read file /etc/pingpong/s/a.toml");
    let e = named.import("", Some(9)).err().unwrap();
    assert!(matches!(e, ConfigError::NoDirectory { .. }));
}

#[test]
fn rewrite_flags_compare() {
    assert!(RewriteFlag::Last == RewriteFlag::Last);
    assert!(RewriteFlag::Last != RewriteFlag::Break);
}

#[test]
fn tables_are_read_in_the_order_of_the_file() {
    let table: toml::Table = toml::from_str("b = 1\na = 2\nc = 3\n").unwrap();
    let keys: Vec<&str> = table.keys().map(|k| k.as_str()).collect();
    assert_eq!(keys, vec!["b", "a", "c"]);
}
