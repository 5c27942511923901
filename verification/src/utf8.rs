use vstd::prelude::*;
use vstd::utf8::*;

verus! {

/// The characters that `String::from_utf8_lossy` decodes `bytes` to.
pub uninterp spec fn utf8_lossy_chars(bytes: Seq<u8>) -> Seq<char>;

/// The length of the invalid sequence that `core::str::from_utf8` reports first in
/// `bytes` (`Utf8Error::error_len`): `None` where the input ends inside a sequence.
pub uninterp spec fn utf8_error_len(bytes: Seq<u8>) -> Option<usize>;

/// The text of byte input: the characters that valid UTF-8 encodes, else what
/// lossy decoding makes of the bytes.
pub open spec fn bytes_text(bytes: Seq<u8>) -> Seq<char> {
    if valid_utf8(bytes) {
        decode_utf8(bytes)
    } else {
        utf8_lossy_chars(bytes)
    }
}

/// The largest `k <= limit` such that the first `k` bytes are valid UTF-8.
pub open spec fn valid_prefix_upto(bytes: Seq<u8>, limit: nat) -> nat
    decreases limit,
{
    if limit == 0 || valid_utf8(bytes.take(limit as int)) {
        limit
    } else {
        valid_prefix_upto(bytes, (limit - 1) as nat)
    }
}

/// The length of the longest prefix of `bytes` that is valid UTF-8.
pub open spec fn valid_prefix_len(bytes: Seq<u8>) -> nat {
    valid_prefix_upto(bytes, bytes.len())
}

/// `String::from_utf8_lossy`: decodes `bytes`, replacing each invalid sequence
/// with U+FFFD. Its documentation states, and this contract claims, that it
/// borrows (flag `false`) exactly when `bytes` is valid UTF-8, that valid input
/// decodes to the characters it encodes, and that invalid input yields at least
/// one U+FFFD. Which characters come out of invalid input is only named.
#[verifier::external_body]
pub(crate) fn decode_lossy(bytes: &[u8]) -> (r: (String, bool))
    ensures
        r.0@ == utf8_lossy_chars(bytes@),
        r.1 == !valid_utf8(bytes@),
        valid_utf8(bytes@) ==> r.0@ == decode_utf8(bytes@),
        !valid_utf8(bytes@) ==> r.0@.contains('\u{FFFD}'),
{
    match String::from_utf8_lossy(bytes) {
        std::borrow::Cow::Borrowed(text) => (text.to_owned(), false),
        std::borrow::Cow::Owned(text) => (text, true),
    }
}

/// `core::str::from_utf8`, reduced to its error: `None` when `bytes` is valid
/// UTF-8, else `Utf8Error::valid_up_to` and `Utf8Error::error_len`. As documented,
/// `valid_up_to` is the largest index up to which the input is valid UTF-8, and an
/// error length is that of an invalid sequence that starts there, so at least one
/// byte and within the input. Which length is reported is only named.
#[verifier::external_body]
pub(crate) fn first_utf8_error(bytes: &[u8]) -> (r: Option<(usize, Option<usize>)>)
    ensures
        r is None <==> valid_utf8(bytes@),
        r matches Some(e) ==> e.0 == valid_prefix_len(bytes@),
        r matches Some(e) ==> e.1 == utf8_error_len(bytes@),
        r matches Some(e) ==> (e.1 matches Some(n) ==> 1 <= n && e.0 + n <= bytes@.len()),
{
    match core::str::from_utf8(bytes) {
        Ok(_) => None,
        Err(e) => Some((e.valid_up_to(), e.error_len())),
    }
}

} // verus!
