//! MIME types and path resolution.

use pingpong::util::mime::get_mime_type;
use pingpong::util::path::{
    base_directory, resolve, resolve_uri, strip_leading_slashes, try_resolve, try_resolve_uri,
    uri_directory,
};
use pingpong::util::text::{chars_eq, chars_of, chars_start_with, split_chars, str_eq, string_of};

#[test]
fn known_extensions_have_their_type() {
    assert_eq!(get_mime_type("/var/www/index.html"), "text/html");
    assert_eq!(get_mime_type("style.css"), "text/css");
    assert_eq!(get_mime_type("archive.tar.gz"), "application/gzip");
    assert_eq!(get_mime_type("a.7z"), "application/x-7z-compressed");
    assert_eq!(get_mime_type("clip.3gp"), "video/3gpp");
    assert_eq!(get_mime_type("x.aac"), "audio/aac");
}

#[test]
fn unknown_extension_is_octet_stream() {
    assert_eq!(get_mime_type("file.unknown"), "application/octet-stream");
    assert_eq!(get_mime_type("README"), "application/octet-stream");
    assert_eq!(get_mime_type(""), "application/octet-stream");
    assert_eq!(get_mime_type("trailing."), "application/octet-stream");
    assert_eq!(get_mime_type("UPPER.HTML"), "application/octet-stream");
}

#[test]
fn name_without_dot_counts_as_extension() {
    assert_eq!(get_mime_type("html"), "text/html");
}

#[test]
fn relative_path_is_joined_to_the_directory_of_the_file() {
    assert_eq!(resolve("/etc/pingpong/pingpong.toml", "sources/a.toml"), "/etc/pingpong/sources/a.toml");
}

#[test]
fn relative_path_is_joined_to_a_directory() {
    assert_eq!(resolve("/etc/pingpong/", "a.toml"), "/etc/pingpong/a.toml");
}

#[test]
fn absolute_path_stands_for_itself() {
    assert_eq!(resolve("/etc/pingpong/pingpong.toml", "/srv/www/"), "/srv/www/");
}

#[test]
fn request_path_is_taken_below_the_root() {
    assert_eq!(resolve_uri("/var/www/", "/img/logo.png"), "/var/www/img/logo.png");
    assert_eq!(resolve_uri("/var/www/", "img/logo.png"), "/var/www/img/logo.png");
    assert_eq!(resolve_uri("/var/www/", "/"), "/var/www/");
}

#[test]
fn request_path_cannot_name_another_root() {
    assert_eq!(resolve_uri("/srv/www/", "//etc/passwd"), "/srv/www/etc/passwd");
    assert_eq!(resolve_uri("/srv/www/", "///a"), "/srv/www/a");
    assert_eq!(resolve_uri("/srv/www/", ""), "/srv/www/");
    assert_eq!(resolve_uri("/srv/www/", "//"), "/srv/www/");
    assert_eq!(resolve_uri("/", "/etc/hosts"), "/etc/hosts");
    assert_eq!(try_resolve_uri("/srv/www/", "//etc/passwd"), Some(String::from("/srv/www/etc/passwd")));
}

#[test]
fn request_path_goes_below_the_directory_of_a_file() {
    assert_eq!(resolve_uri("/srv/site.toml", "/a/b"), "/srv/a/b");
    assert_eq!(resolve_uri("/site.toml", "/a"), "/a");
    assert_eq!(resolve_uri("site.toml", "/a"), "a");
    assert_eq!(uri_directory("/srv/www/"), Some(String::from("/srv/www/")));
    assert_eq!(uri_directory("/srv/site.toml"), Some(String::from("/srv/")));
    assert_eq!(uri_directory("/site.toml"), Some(String::from("/")));
    assert_eq!(uri_directory("site.toml"), Some(String::new()));
    assert_eq!(uri_directory(""), None);
}

#[test]
fn leading_slashes_are_all_taken_off() {
    let strip = |s: &str| string_of(&strip_leading_slashes(&chars_of(s)));
    assert_eq!(strip("///a//b/"), "a//b/");
    assert_eq!(strip("a/b"), "a/b");
    assert_eq!(strip("//"), "");
    assert_eq!(strip(""), "");
}

#[test]
fn base_without_directory_resolves_nothing() {
    assert_eq!(base_directory(""), None);
    assert_eq!(try_resolve("", "a.toml"), None);
    assert_eq!(try_resolve_uri("", "/a"), None);
}

#[test]
fn base_directory_of_file_and_of_directory() {
    assert_eq!(base_directory("/a/b/c.toml"), Some(String::from("/a/b")));
    assert_eq!(base_directory("/a/b/"), Some(String::from("/a/b")));
    assert_eq!(base_directory("c.toml"), Some(String::new()));
    assert_eq!(try_resolve("conf.toml", "x"), Some(String::from("x")));
}

#[test]
fn text_helpers_work_on_characters() {
    let v = chars_of("a\u{e9} b");
    assert_eq!(v, vec!['a', '\u{e9}', ' ', 'b']);
    assert_eq!(string_of(&v), "a\u{e9} b");
    assert!(str_eq("abc", "abc"));
    assert!(!str_eq("abc", "abd"));
    assert!(!str_eq("abc", "ab"));
    assert!(chars_start_with(&chars_of("/api/users"), &chars_of("/api")));
    assert!(chars_start_with(&chars_of("/api"), &chars_of("")));
    assert!(!chars_start_with(&chars_of("/ap"), &chars_of("/api")));
    assert!(chars_eq(&v, &chars_of("a\u{e9} b")));
}

#[test]
fn split_keeps_empty_fields() {
    let fields: Vec<String> = split_chars(&chars_of("a  b "), ' ').iter().map(string_of).collect();
    assert_eq!(fields, vec!["a", "", "b", ""]);
    let one: Vec<String> = split_chars(&chars_of(""), ' ').iter().map(string_of).collect();
    assert_eq!(one, vec![""]);
}
