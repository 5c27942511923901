use vstd::prelude::*;
use vstd::utf8::valid_utf8;

use crate::sealed::Sealed;
use crate::utf8::{bytes_text, decode_lossy};

verus! {

/// An input that every sanitizer accepts: text (`&str`, `&String`), or bytes
/// (`&[u8]`, `&[u8; N]`) that are decoded as lossy UTF-8 before anything else.
pub trait GuardInput: Sealed {
    /// The text that the sanitizers see.
    spec fn text_view(&self) -> Seq<char>;

    /// Whether reading the text replaced undecodable bytes.
    spec fn lossy_view(&self) -> bool;

    /// The raw bytes, for byte input.
    spec fn raw_view(&self) -> Option<Seq<u8>>;

    /// The text, and whether decoding it was lossy.
    fn as_utf8_lossy(&self) -> (r: (String, bool))
        ensures
            r.0@ == self.text_view(),
            r.1 == self.lossy_view(),
    ;

    /// The raw bytes, for byte input; `None` for text input.
    fn raw_bytes(&self) -> (r: Option<&[u8]>)
        ensures
            r is Some <==> self.raw_view() is Some,
            r matches Some(b) ==> self.raw_view() == Some(b@),
    ;
}

impl GuardInput for &str {
    open spec fn text_view(&self) -> Seq<char> {
        (**self)@
    }

    open spec fn lossy_view(&self) -> bool {
        false
    }

    open spec fn raw_view(&self) -> Option<Seq<u8>> {
        None
    }

    fn as_utf8_lossy(&self) -> (r: (String, bool)) {
        ((**self).to_owned(), false)
    }

    fn raw_bytes(&self) -> (r: Option<&[u8]>) {
        None
    }
}

impl GuardInput for &[u8] {
    open spec fn text_view(&self) -> Seq<char> {
        bytes_text((**self)@)
    }

    open spec fn lossy_view(&self) -> bool {
        !valid_utf8((**self)@)
    }

    open spec fn raw_view(&self) -> Option<Seq<u8>> {
        Some((**self)@)
    }

    fn as_utf8_lossy(&self) -> (r: (String, bool)) {
        decode_lossy(*self)
    }

    fn raw_bytes(&self) -> (r: Option<&[u8]>) {
        Some(*self)
    }
}

impl GuardInput for &String {
    open spec fn text_view(&self) -> Seq<char> {
        (**self)@
    }

    open spec fn lossy_view(&self) -> bool {
        false
    }

    open spec fn raw_view(&self) -> Option<Seq<u8>> {
        None
    }

    fn as_utf8_lossy(&self) -> (r: (String, bool)) {
        ((**self).clone(), false)
    }

    fn raw_bytes(&self) -> (r: Option<&[u8]>) {
        None
    }
}

impl<const N: usize> GuardInput for &[u8; N] {
    open spec fn text_view(&self) -> Seq<char> {
        bytes_text((**self)@)
    }

    open spec fn lossy_view(&self) -> bool {
        !valid_utf8((**self)@)
    }

    open spec fn raw_view(&self) -> Option<Seq<u8>> {
        Some((**self)@)
    }

    fn as_utf8_lossy(&self) -> (r: (String, bool)) {
        decode_lossy(vstd::array::array_as_slice(*self))
    }

    fn raw_bytes(&self) -> (r: Option<&[u8]>) {
        Some(vstd::array::array_as_slice(*self))
    }
}

} // verus!
