//! Turning an uploaded blob of unknown encoding into text.
use vstd::prelude::*;
use vstd::slice::slice_subrange;
use vstd::utf8::{decode_utf8, valid_utf8};

verus! {

/// The text that the UTF-8 decoder gives for some bytes, malformed sequences
/// replaced by U+FFFD.
pub uninterp spec fn utf8_text(b: Seq<u8>) -> Seq<char>;

/// The text that the Shift_JIS decoder gives for some bytes, and whether it met
/// malformed sequences.
pub uninterp spec fn shift_jis_decoded(b: Seq<u8>) -> (Seq<char>, bool);

/// Relies on encoding_rs::Encoding::decode_without_bom_handling on UTF_8: valid
/// UTF-8 decodes to its characters with no error reported; otherwise malformed
/// sequences are replaced and reported. It panics when the output buffer size
/// overflows `usize`, about three times the input length.
#[verifier::external_body]
fn decode_utf8_bytes(b: &[u8]) -> (r: (String, bool))
    requires
        b@.len() <= usize::MAX / 4,
    ensures
        r.0@ == utf8_text(b@),
        r.1 == !valid_utf8(b@),
        valid_utf8(b@) ==> r.0@ == decode_utf8(b@),
{
    let (text, had_errors) = encoding_rs::UTF_8.decode_without_bom_handling(b);
    (text.into_owned(), had_errors)
}

/// Relies on encoding_rs::Encoding::decode on SHIFT_JIS: the decoded text and
/// whether malformed sequences were replaced. It panics when the output buffer
/// size overflows `usize`, about three times the input length.
#[verifier::external_body]
fn decode_shift_jis_bytes(b: &[u8]) -> (r: (String, bool))
    requires
        b@.len() <= usize::MAX / 4,
    ensures
        (r.0@, r.1) == shift_jis_decoded(b@),
{
    let (text, _, had_errors) = encoding_rs::SHIFT_JIS.decode(b);
    (text.into_owned(), had_errors)
}

/// Whether the bytes start with the UTF-8 byte-order mark EF BB BF.
pub open spec fn has_utf8_bom(b: Seq<u8>) -> bool {
    b.len() >= 3 && b[0] == 0xEFu8 && b[1] == 0xBBu8 && b[2] == 0xBFu8
}

/// The text a blob stands for, and whether decoding met malformed input: a
/// byte-order mark selects UTF-8 for the rest; otherwise Shift_JIS is kept when it
/// decodes cleanly; otherwise the blob is read as UTF-8.
pub open spec fn decoded(b: Seq<u8>) -> (Seq<char>, bool) {
    if has_utf8_bom(b) {
        (utf8_text(b.skip(3)), !valid_utf8(b.skip(3)))
    } else if !shift_jis_decoded(b).1 {
        shift_jis_decoded(b)
    } else {
        (utf8_text(b), !valid_utf8(b))
    }
}

/// The byte-order-mark strategy: applies only to a blob that starts with the mark.
pub fn try_utf8_with_bom(b: &[u8]) -> (r: Option<(String, bool)>)
    requires
        b@.len() <= usize::MAX / 4,
    ensures
        r.is_some() == has_utf8_bom(b@),
        r.is_some() ==> (r.unwrap().0@, r.unwrap().1) == decoded(b@),
{
    if b.len() >= 3 && b[0] == 0xEFu8 && b[1] == 0xBBu8 && b[2] == 0xBFu8 {
        let rest = slice_subrange(b, 3, b.len());
        assert(rest@ =~= b@.skip(3));
        Some(decode_utf8_bytes(rest))
    } else {
        None
    }
}

/// The Shift_JIS strategy: applies only when the decoder meets no malformed input.
pub fn try_shift_jis(b: &[u8]) -> (r: Option<String>)
    requires
        b@.len() <= usize::MAX / 4,
    ensures
        r.is_some() == !shift_jis_decoded(b@).1,
        r.is_some() ==> r.unwrap()@ == shift_jis_decoded(b@).0,
{
    let (text, had_errors) = decode_shift_jis_bytes(b);
    if had_errors {
        None
    } else {
        Some(text)
    }
}

/// Decodes a blob, trying a byte-order mark, then Shift_JIS, then UTF-8. Never
/// fails; the flag reports replaced input. The length bound keeps the decoders'
/// buffer sizes within `usize`.
pub fn decode(b: &[u8]) -> (r: (String, bool))
    requires
        b@.len() <= usize::MAX / 4,
    ensures
        (r.0@, r.1) == decoded(b@),
        !has_utf8_bom(b@) && valid_utf8(b@) && shift_jis_decoded(b@).1 ==> r.0@ == decode_utf8(
            b@,
        ),
{
    if let Some(r) = try_utf8_with_bom(b) {
        return r;
    }
    if let Some(text) = try_shift_jis(b) {
        return (text, false);
    }
    decode_utf8_bytes(b)
}

} // verus!
