use vstd::prelude::*;

use crate::chars::{is_json_display_unsafe, json_display_unsafe_char};
use crate::strings::{chars_vec, string_from_chars};

verus! {

broadcast use vstd::seq_lib::group_seq_properties;

/// A `&str` that is to be serialized as a JSON string with the characters that a
/// JSON serializer writes literally but a display must not show (DEL, the C1
/// controls, the bidi characters) replaced by U+FFFD. The C0 controls stay: the
/// serializer escapes them itself, losslessly.
#[derive(Debug, Clone, Copy)]
pub struct JsonSafe<'a>(pub &'a str);

/// U+FFFD in place of a character that a JSON serializer would leave unsafe.
pub open spec fn json_safe_char(c: char) -> char {
    if json_display_unsafe_char(c) {
        '\u{FFFD}'
    } else {
        c
    }
}

/// The text that a `JsonSafe` serializes: `json_safe_char` on each character.
pub open spec fn json_safe_text(s: Seq<char>) -> Seq<char> {
    s.map_values(|c: char| json_safe_char(c))
}

/// Some character of `s` has to be replaced.
pub open spec fn has_json_display_unsafe(s: Seq<char>) -> bool {
    exists|i: int| 0 <= i < s.len() && #[trigger] json_display_unsafe_char(s[i])
}

impl<'a> JsonSafe<'a> {
    /// Whether any character has to be replaced; when none has, the string can
    /// be serialized as it is.
    pub fn needs_neutralizing(&self) -> (r: bool)
        ensures
            r == has_json_display_unsafe(self.0@),
    {
        let cs = chars_vec(self.0);
        let mut i: usize = 0;
        while i < cs.len()
            invariant
                i <= cs.len(),
                cs@ == self.0@,
                forall|k: int| 0 <= k < i ==> !json_display_unsafe_char(#[trigger] cs@[k]),
            decreases cs.len() - i,
        {
            if is_json_display_unsafe(cs[i]) {
                assert(json_display_unsafe_char(cs@[i as int]));
                return true;
            }
            i = i + 1;
        }
        false
    }

    /// The string to serialize: every DEL, C1 control and bidi character replaced
    /// by U+FFFD, everything else unchanged.
    pub fn neutralized(&self) -> (r: String)
        ensures
            r@ == json_safe_text(self.0@),
    {
        let cs = chars_vec(self.0);
        let mut out: Vec<char> = Vec::new();
        let mut i: usize = 0;
        while i < cs.len()
            invariant
                i <= cs.len(),
                out@ == json_safe_text(cs@.take(i as int)),
            decreases cs.len() - i,
        {
            let c = cs[i];
            if is_json_display_unsafe(c) {
                out.push('\u{FFFD}');
            } else {
                out.push(c);
            }
            assert(out@ =~= json_safe_text(cs@.take(i + 1)));
            i = i + 1;
        }
        assert(cs@.take(cs@.len() as int) == cs@);
        string_from_chars(&out)
    }
}

} // verus!
