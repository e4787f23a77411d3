//! Percent-encoding that leaves `/` untouched.
//!
//! Every byte of the UTF-8 form of a text is kept if it is an ASCII letter
//! or digit or one of `-`, `.`, `_`, `~`, `/`, and is written as `%` and two
//! upper-case hexadecimal digits otherwise.

use std::borrow::Cow;
use vstd::prelude::*;
use vstd::string::StringSliceAdditionalSpecFns;
use vstd::utf8::{
    encode_scalar, encode_utf8, has_width_1_encoding, is_ascii_chars, is_ascii_chars_encode_utf8,
    leading_byte_width_2, leading_byte_width_3, leading_byte_width_4,
};

verus! {

/// A text to be percent-encoded when it is written out.
#[derive(Copy, Clone, Debug, Eq, PartialEq, Hash, Ord, PartialOrd)]
pub struct Encoded<Str>(pub Str);

/// The upper-case hexadecimal digit, as an ASCII byte, of a value below
/// 16. A greater value is given the byte as many places after `A` as the
/// value is after ten.
pub open spec fn hex_digit(digit: u8) -> u8 {
    if digit < 10 {
        (48 + digit) as u8
    } else {
        (55 + digit) as u8
    }
}

/// Whether a byte is written as it is.
pub open spec fn is_safe(b: u8) -> bool {
    ||| 48 <= b <= 57
    ||| 65 <= b <= 90
    ||| 97 <= b <= 122
    ||| b == 45
    ||| b == 46
    ||| b == 95
    ||| b == 126
    ||| b == 47
}

/// The encoded form of one byte.
pub open spec fn encoded_byte(b: u8) -> Seq<char> {
    if is_safe(b) {
        seq![b as char]
    } else {
        seq!['%', hex_digit(b / 16) as char, hex_digit(b % 16) as char]
    }
}

/// The encoded form of a sequence of bytes: the encoded forms of its bytes,
/// one after the other.
pub open spec fn percent_encoded(bytes: Seq<u8>) -> Seq<char>
    decreases bytes.len(),
{
    if bytes.len() == 0 {
        Seq::empty()
    } else {
        percent_encoded(bytes.drop_last()) + encoded_byte(bytes.last())
    }
}

/// Whether every byte is written as it is.
pub open spec fn all_safe(bytes: Seq<u8>) -> bool {
    forall|i: int| 0 <= i < bytes.len() ==> is_safe(#[trigger] bytes[i])
}

/// Bytes that are all safe encode to themselves.
pub proof fn lemma_safe_bytes_unchanged(bytes: Seq<u8>)
    requires
        all_safe(bytes),
    ensures
        percent_encoded(bytes) == bytes.map_values(|b: u8| b as char),
    decreases bytes.len(),
{
    if bytes.len() > 0 {
        let init = bytes.drop_last();
        assert forall|i: int| 0 <= i < init.len() implies is_safe(#[trigger] init[i]) by {
            assert(init[i] == bytes[i]);
        }
        lemma_safe_bytes_unchanged(init);
        assert(is_safe(bytes[bytes.len() - 1]));
        assert(percent_encoded(bytes) =~= bytes.map_values(|b: u8| b as char));
    } else {
        assert(percent_encoded(bytes) =~= bytes.map_values(|b: u8| b as char));
    }
}

/// A text whose UTF-8 form holds ASCII bytes only is made of ASCII
/// characters only.
proof fn lemma_ascii_bytes_ascii_chars(chars: Seq<char>)
    requires
        forall|i: int| 0 <= i < encode_utf8(chars).len() ==> #[trigger] encode_utf8(chars)[i] < 128,
    ensures
        is_ascii_chars(chars),
    decreases chars.len(),
{
    if chars.len() > 0 {
        let c0 = chars[0] as u32;
        let rest = chars.drop_first();
        let bytes = encode_utf8(chars);
        let head = encode_scalar(c0);
        assert(bytes == head + encode_utf8(rest));
        assert(head.len() >= 1);
        assert(bytes[0] == head[0]);
        assert(bytes[0] < 128);
        assert(has_width_1_encoding(c0)) by {
            if !has_width_1_encoding(c0) {
                assert(leading_byte_width_2(c0) >= 128) by (bit_vector);
                assert(leading_byte_width_3(c0) >= 128) by (bit_vector);
                assert(leading_byte_width_4(c0) >= 128) by (bit_vector);
            }
        }
        assert(head.len() == 1);
        assert forall|i: int| 0 <= i < encode_utf8(rest).len() implies #[trigger] encode_utf8(
            rest,
        )[i] < 128 by {
            assert(bytes[i + 1] == encode_utf8(rest)[i]);
        }
        lemma_ascii_bytes_ascii_chars(rest);
        assert forall|i: int| 0 <= i < chars.len() implies '\0' <= #[trigger] chars[i]
            <= '\u{7f}' by {
            if i > 0 {
                assert(chars[i] == rest[i - 1]);
                assert('\0' <= rest[i - 1] <= '\u{7f}');
            } else {
                vstd::utf8::char_u32_cast(chars[0], c0);
                assert(c0 as char == chars[0]);
            }
        }
    }
}

/// A text whose bytes are all safe encodes to itself.
pub proof fn lemma_safe_text_unchanged(chars: Seq<char>)
    requires
        all_safe(encode_utf8(chars)),
    ensures
        percent_encoded(encode_utf8(chars)) == chars,
{
    let bytes = encode_utf8(chars);
    assert forall|i: int| 0 <= i < bytes.len() implies #[trigger] bytes[i] < 128 by {
        assert(is_safe(bytes[i]));
    }
    lemma_ascii_bytes_ascii_chars(chars);
    is_ascii_chars_encode_utf8(chars);
    lemma_safe_bytes_unchanged(bytes);
    assert(bytes.map_values(|b: u8| b as char) =~= chars) by {
        assert forall|i: int| 0 <= i < chars.len() implies (bytes[i] as char) == chars[i] by {
            assert(chars[i] as u8 == bytes[i]);
            assert('\0' <= chars[i] <= '\u{7f}');
        }
    }
}

/// Maps a value below 16 to its upper-case ASCII hexadecimal digit.
pub fn to_hex_digit(digit: u8) -> (r: u8)
    requires
        55 + digit <= u8::MAX,
    ensures
        r == hex_digit(digit),
{
    if digit < 10 {
        48u8 + digit
    } else {
        55u8 + digit
    }
}

fn safe(b: u8) -> (r: bool)
    ensures
        r == is_safe(b),
{
    (48 <= b && b <= 57) || (65 <= b && b <= 90) || (97 <= b && b <= 122) || b == 45 || b == 46
        || b == 95 || b == 126 || b == 47
}

/// Appends the encoded form of `data` to `escaped`. With `may_skip_write`,
/// data that needs no encoding is not appended at all, and the result says
/// so: it is `true` exactly when nothing was written for that reason.
pub fn encode_into(data: &[u8], may_skip_write: bool, escaped: &mut String) -> (unmodified: bool)
    ensures
        unmodified == (may_skip_write && all_safe(data@)),
        final(escaped)@ == if unmodified {
            old(escaped)@
        } else {
            old(escaped)@ + percent_encoded(data@)
        },
{
    if may_skip_write {
        let mut k: usize = 0;
        while k < data.len() && safe(data[k])
            invariant
                k <= data.len(),
                forall|j: int| 0 <= j < k ==> is_safe(#[trigger] data@[j]),
            decreases data.len() - k,
        {
            k += 1;
        }
        if k >= data.len() {
            return true;
        }
        assert(!is_safe(data@[k as int]));
    }
    let mut i: usize = 0;
    assert(data@.take(0) =~= Seq::<u8>::empty());
    assert(old(escaped)@ + Seq::<char>::empty() =~= old(escaped)@);
    while i < data.len()
        invariant
            i <= data.len(),
            escaped@ == old(escaped)@ + percent_encoded(data@.take(i as int)),
        decreases data.len() - i,
    {
        let byte = data[i];
        let ghost before = escaped@;
        assert(data@.take(i + 1).drop_last() =~= data@.take(i as int));
        assert(data@.take(i + 1).last() == byte);
        if safe(byte) {
            escaped.push(byte as char);
            assert(escaped@ =~= before + encoded_byte(byte));
        } else {
            let high = to_hex_digit(byte / 16);
            let low = to_hex_digit(byte % 16);
            escaped.push('%');
            escaped.push(high as char);
            escaped.push(low as char);
            assert(escaped@ =~= before + encoded_byte(byte));
        }
        assert(escaped@ =~= old(escaped)@ + percent_encoded(data@.take(i + 1)));
        i += 1;
    }
    assert(data@.take(data@.len() as int) =~= data@);
    false
}

/// Appends the encoded form of `data` to `escaped`, as [`encode_into`] does.
pub fn append_string(data: &[u8], escaped: &mut String, may_skip: bool) -> (unmodified: bool)
    ensures
        unmodified == (may_skip && all_safe(data@)),
        final(escaped)@ == if unmodified {
            old(escaped)@
        } else {
            old(escaped)@ + percent_encoded(data@)
        },
{
    encode_into(data, may_skip, escaped)
}

/// The encoded form of `data`, or `None` if `data` needs no encoding.
pub fn encode_binary(data: &[u8]) -> (r: Option<String>)
    ensures
        match r {
            None => all_safe(data@),
            Some(escaped) => !all_safe(data@) && escaped@ == percent_encoded(data@),
        },
{
    let mut escaped = String::new();
    let unmodified = append_string(data, &mut escaped, true);
    if unmodified {
        None
    } else {
        assert(Seq::<char>::empty() + percent_encoded(data@) =~= percent_encoded(data@));
        Some(escaped)
    }
}

/// Percent-encodes `data`, byte by byte of its UTF-8 form. A text that
/// needs no encoding is handed back as it is, without a copy.
pub fn encode_ignore_slash(data: &str) -> (r: Cow<'_, str>)
    ensures
        r@ == percent_encoded(data.spec_bytes()),
        r is Borrowed <==> all_safe(data.spec_bytes()),
{
    match encode_binary(data.as_bytes()) {
        Some(escaped) => Cow::Owned(escaped),
        None => {
            proof {
                lemma_safe_text_unchanged(data@);
            }
            Cow::Borrowed(data)
        },
    }
}

impl<'a> Encoded<&'a str> {
    /// The encoded form of the text, always written out in full.
    pub fn encode(&self) -> (r: String)
        ensures
            r@ == percent_encoded(self.0.spec_bytes()),
    {
        let mut escaped = String::new();
        let _ = encode_into(self.0.as_bytes(), false, &mut escaped);
        assert(Seq::<char>::empty() + percent_encoded(self.0.spec_bytes()) =~= percent_encoded(
            self.0.spec_bytes(),
        ));
        escaped
    }
}

} // verus!
