//! Percent-decoding of request targets.

use vstd::prelude::*;

use crate::config::source::opt_view;

verus! {

/// What `urlencoding::decode` makes of a text: the text with every `%xx`
/// replaced by the byte it stands for; `None` if the bytes obtained are no
/// UTF-8.
pub uninterp spec fn url_decoded(uri: Seq<char>) -> Option<Seq<char>>;

/// Calls `urlencoding::decode`. The decoded text is handed back, and
/// nothing where decoding fails.
#[verifier::external_body]
pub(crate) fn decode(uri: &str) -> (r: Option<String>)
    ensures
        opt_view(r) == url_decoded(uri@),
{
    match urlencoding::decode(uri) {
        Ok(decoded) => Some(decoded.into_owned()),
        Err(_) => None,
    }
}

/// The decoded form of a path, or the path itself where there is none.
pub open spec fn decoded_or_same(uri: Seq<char>) -> Seq<char> {
    match url_decoded(uri) {
        Some(decoded) => decoded,
        None => uri,
    }
}

/// A path as it is best read: in the decoded form given, or as it is
/// where it could not be decoded.
pub fn decoded_or(decoded: Option<String>, uri: &str) -> (r: String)
    ensures
        r@ == match decoded {
            Some(d) => d@,
            None => uri@,
        },
{
    match decoded {
        Some(d) => d,
        None => uri.to_owned(),
    }
}

/// The decoded form of the path `uri`; `uri` itself if it cannot be decoded.
pub fn decode_or_keep(uri: &str) -> (r: String)
    ensures
        r@ == decoded_or_same(uri@),
{
    decoded_or(decode(uri), uri)
}

} // verus!
