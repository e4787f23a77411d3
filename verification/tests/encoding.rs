//! Percent-encoding of request targets.

use std::borrow::Cow;

use pingpong::util::url::enc::{
    append_string, encode_binary, encode_ignore_slash, encode_into, to_hex_digit, Encoded,
};

#[test]
fn safe_text_is_borrowed_unchanged() {
    let r = encode_ignore_slash("/static/app-1.2_3~x/index.html");
    assert!(matches!(r, Cow::Borrowed("/static/app-1.2_3~x/index.html")));
}

#[test]
fn empty_text_is_borrowed() {
    assert!(matches!(encode_ignore_slash(""), Cow::Borrowed("")));
}

#[test]
fn space_and_query_are_escaped() {
    assert_eq!(encode_ignore_slash("/a b?x=1&y=2"), "/a%20b%3Fx%3D1%26y%3D2");
}

#[test]
fn percent_sign_is_escaped() {
    assert_eq!(encode_ignore_slash("/100%"), "/100%25");
}

#[test]
fn non_ascii_is_escaped_byte_by_byte() {
    assert_eq!(encode_ignore_slash("/caf\u{e9}"), "/caf%C3%A9");
    assert_eq!(encode_ignore_slash("\u{1F600}"), "%F0%9F%98%80");
}

#[test]
fn hex_digits_are_upper_case() {
    let digits: Vec<u8> = (0u8..16).map(to_hex_digit).collect();
    assert_eq!(digits, b"0123456789ABCDEF".to_vec());
}

#[test]
fn encode_binary_tells_unmodified_data() {
    assert_eq!(encode_binary(b"abc/DEF-0.9_~"), None);
    assert_eq!(encode_binary(b"a\x00\xffb"), Some(String::from("a%00%FFb")));
}

#[test]
fn append_string_skips_only_when_allowed() {
    let mut out = String::from(">");
    assert!(append_string(b"abc", &mut out, true));
    assert_eq!(out, ">");
    assert!(!append_string(b"abc", &mut out, false));
    assert_eq!(out, ">abc");
    assert!(!append_string(b"a c", &mut out, true));
    assert_eq!(out, ">abca%20c");
}

#[test]
fn encode_into_appends_after_what_is_there() {
    let mut out = String::from("x=");
    assert!(!encode_into(b"1+1", false, &mut out));
    assert_eq!(out, "x=1%2B1");
}

#[test]
fn encoded_wrapper_always_writes_out() {
    assert_eq!(Encoded("hello!").encode(), "hello%21");
    assert_eq!(Encoded("plain").encode(), "plain");
}
