use vstd::prelude::*;

use crate::chars::{bidi_char, control_char, display_unsafe_char, json_display_unsafe_char};
use crate::serde_safe::{has_json_display_unsafe, json_safe_char, json_safe_text};
use crate::text::{hex_digit, json_escape, json_escape_char, jsonl_text, unicode_escape};

verus! {

broadcast use vstd::seq_lib::group_seq_properties;

// ---------------------------------------------------------------------------
// A JSON string reader (RFC 8259, section 7).
// ---------------------------------------------------------------------------
/// The value of a hexadecimal digit, either case.
pub open spec fn hex_value(c: char) -> Option<int> {
    if '0' <= c && c <= '9' {
        Some(c as int - '0' as int)
    } else if 'a' <= c && c <= 'f' {
        Some(c as int - 'a' as int + 10)
    } else if 'A' <= c && c <= 'F' {
        Some(c as int - 'A' as int + 10)
    } else {
        None
    }
}

/// The character that a two-character escape `\x` stands for.
pub open spec fn short_escape(c: char) -> Option<char> {
    if c == '"' {
        Some('"')
    } else if c == '\\' {
        Some('\\')
    } else if c == '/' {
        Some('/')
    } else if c == 'b' {
        Some('\u{0008}')
    } else if c == 'f' {
        Some('\u{000C}')
    } else if c == 'n' {
        Some('\n')
    } else if c == 'r' {
        Some('\r')
    } else if c == 't' {
        Some('\t')
    } else {
        None
    }
}

/// The code unit of the four hexadecimal digits at `t[2..6]`.
pub open spec fn hex4_value(t: Seq<char>) -> Option<int> {
    match (hex_value(t[2]), hex_value(t[3]), hex_value(t[4]), hex_value(t[5])) {
        (Some(a), Some(b), Some(c), Some(d)) => Some(a * 4096 + b * 256 + c * 16 + d),
        _ => None,
    }
}

/// The characters that the body of a JSON string stands for, or `None` when the
/// body is not well formed: a raw `"` or control character, or a backslash that
/// does not start a valid escape. A `\uXXXX` escape is read when it names a
/// scalar value; surrogate escapes are refused.
pub open spec fn json_read_body(t: Seq<char>) -> Option<Seq<char>>
    decreases t.len(),
{
    if t.len() == 0 {
        Some(seq![])
    } else if t[0] == '\\' {
        if t.len() >= 2 && short_escape(t[1]) is Some {
            match json_read_body(t.skip(2)) {
                Some(rest) => Some(seq![short_escape(t[1])->0] + rest),
                None => None,
            }
        } else if t.len() >= 6 && t[1] == 'u' && hex4_value(t) is Some && !(0xD800 <= hex4_value(
            t,
        )->0 && hex4_value(t)->0 <= 0xDFFF) {
            match json_read_body(t.skip(6)) {
                Some(rest) => Some(seq![hex4_value(t)->0 as char] + rest),
                None => None,
            }
        } else {
            None
        }
    } else if t[0] == '"' || ' ' > t[0] {
        None
    } else {
        match json_read_body(t.skip(1)) {
            Some(rest) => Some(seq![t[0]] + rest),
            None => None,
        }
    }
}

/// What a JSON reader makes of a string literal: its body read, when it is quoted.
pub open spec fn json_read_string(lit: Seq<char>) -> Option<Seq<char>> {
    if lit.len() >= 2 && lit[0] == '"' && lit.last() == '"' {
        json_read_body(lit.subrange(1, lit.len() - 1))
    } else {
        None
    }
}

// ---------------------------------------------------------------------------
// Proofs.
// ---------------------------------------------------------------------------
proof fn lemma_json_escape_add(a: Seq<char>, b: Seq<char>)
    ensures
        json_escape(a + b) == json_escape(a) + json_escape(b),
    decreases b.len(),
{
    if b.len() == 0 {
        assert(a + b == a);
    } else {
        assert((a + b).drop_last() == a + b.drop_last());
        lemma_json_escape_add(a, b.drop_last());
    }
}

proof fn lemma_json_escape_one(c: char)
    ensures
        json_escape(seq![c]) == json_escape_char(c),
{
    assert(seq![c].drop_last() == Seq::<char>::empty());
    assert(seq![c].last() == c);
    reveal_with_fuel(json_escape, 2);
}

proof fn lemma_hex_digit_value(x: int)
    ensures
        hex_value(hex_digit(x)) == Some(x % 16),
{
}

proof fn lemma_hex4_recombine(v: int)
    requires
        0 <= v < 0x10000,
    ensures
        (v / 4096) % 16 * 4096 + (v / 256) % 16 * 256 + (v / 16) % 16 * 16 + v % 16 == v,
{
    assert((v / 4096) % 16 * 4096 + (v / 256) % 16 * 256 + (v / 16) % 16 * 16 + v % 16 == v)
        by (nonlinear_arith)
        requires
            0 <= v < 0x10000,
    ;
}

/// Reading one escaped character in front of more escaped text.
proof fn lemma_read_escaped_char(c: char, t: Seq<char>)
    ensures
        json_read_body(json_escape_char(c) + t) == match json_read_body(t) {
            Some(rest) => Some(seq![c] + rest),
            None => None::<Seq<char>>,
        },
{
    let e = json_escape_char(c);
    let u = e + t;
    if e.len() == 2 {
        assert(u.skip(2) == t);
    } else if e.len() == 6 {
        let v = c as int;
        assert(v < 0x10000);
        assert(e == unicode_escape(c));
        lemma_hex_digit_value(v / 4096);
        lemma_hex_digit_value(v / 256);
        lemma_hex_digit_value(v / 16);
        lemma_hex_digit_value(v);
        assert(u[2] == hex_digit(v / 4096));
        assert(u[3] == hex_digit(v / 256));
        assert(u[4] == hex_digit(v / 16));
        assert(u[5] == hex_digit(v));
        lemma_hex4_recombine(v);
        assert(hex4_value(u) == Some(v));
        assert(u.skip(6) == t);
        assert(v as char == c);
    } else {
        assert(e == seq![c]);
        assert(u.skip(1) == t);
    }
}

/// The escaped body reads back as the text.
proof fn lemma_read_json_escape(s: Seq<char>)
    ensures
        json_read_body(json_escape(s)) == Some(s),
    decreases s.len(),
{
    if s.len() > 0 {
        let c = s[0];
        let rest = s.drop_first();
        assert(s == seq![c] + rest);
        lemma_json_escape_add(seq![c], rest);
        lemma_json_escape_one(c);
        lemma_read_json_escape(rest);
        lemma_read_escaped_char(c, json_escape(rest));
    }
}

/// `jsonl_safe` loses nothing: a JSON reader reads its output back as exactly the
/// decoded text, so every backslash in it starts a valid escape, and no raw quote
/// or control character stands inside the string.
pub proof fn jsonl_safe_reads_back(s: Seq<char>)
    ensures
        json_read_string(jsonl_text(s)) == Some(s),
{
    let lit = jsonl_text(s);
    assert(lit.subrange(1, lit.len() - 1) == json_escape(s));
    lemma_read_json_escape(s);
}

/// The characters of one escaped character are all safe on a display.
proof fn lemma_escape_char_clean(c: char)
    ensures
        forall|i: int|
            0 <= i < json_escape_char(c).len() ==> !display_unsafe_char(
                #[trigger] json_escape_char(c)[i],
            ),
{
    let e = json_escape_char(c);
    if e.len() == 6 {
        let v = c as int;
        assert(e == unicode_escape(c));
        assert forall|i: int| 0 <= i < e.len() implies !display_unsafe_char(#[trigger] e[i]) by {
            if i >= 2 {
                let d = if i == 2 {
                    v / 4096
                } else if i == 3 {
                    v / 256
                } else if i == 4 {
                    v / 16
                } else {
                    v
                };
                assert(e[i] == hex_digit(d));
            }
        }
    }
}

proof fn lemma_json_escape_clean(s: Seq<char>)
    ensures
        forall|i: int|
            0 <= i < json_escape(s).len() ==> !display_unsafe_char(#[trigger] json_escape(s)[i]),
    decreases s.len(),
{
    if s.len() > 0 {
        lemma_json_escape_clean(s.drop_last());
        lemma_escape_char_clean(s.last());
        let a = json_escape(s.drop_last());
        let b = json_escape_char(s.last());
        assert forall|i: int| 0 <= i < json_escape(s).len() implies !display_unsafe_char(
            #[trigger] json_escape(s)[i],
        ) by {
            if i < a.len() {
                assert(json_escape(s)[i] == a[i]);
            } else {
                assert(json_escape(s)[i] == b[i - a.len()]);
            }
        }
    }
}

/// `jsonl_safe` writes no raw control character and no raw bidi character: they
/// all stand as escapes.
pub proof fn jsonl_safe_output_is_clean(s: Seq<char>)
    ensures
        forall|i: int|
            0 <= i < jsonl_text(s).len() ==> !control_char(#[trigger] jsonl_text(s)[i])
                && !bidi_char(jsonl_text(s)[i]),
{
    lemma_json_escape_clean(s);
    let lit = jsonl_text(s);
    let body = json_escape(s);
    assert forall|i: int| 0 <= i < lit.len() implies !control_char(#[trigger] lit[i])
        && !bidi_char(lit[i]) by {
        if 0 < i < lit.len() - 1 {
            assert(lit[i] == body[i - 1]);
        }
    }
}

// ---------------------------------------------------------------------------
// JsonSafe.
// ---------------------------------------------------------------------------
/// `JsonSafe` replaces each unsafe character by one U+FFFD in the same position
/// and keeps every other character, so the output has the input's length and
/// holds no DEL, C1 control or bidi character; text with nothing to replace is
/// serialized unchanged.
pub proof fn json_safe_replaces_in_place(s: Seq<char>)
    ensures
        json_safe_text(s).len() == s.len(),
        forall|i: int|
            0 <= i < s.len() ==> #[trigger] json_safe_text(s)[i] == if json_display_unsafe_char(
                s[i],
            ) {
                '\u{FFFD}'
            } else {
                s[i]
            },
        forall|i: int|
            0 <= i < s.len() ==> !json_display_unsafe_char(#[trigger] json_safe_text(s)[i]),
        !has_json_display_unsafe(s) ==> json_safe_text(s) == s,
{
    assert forall|i: int| 0 <= i < s.len() implies #[trigger] json_safe_text(s)[i]
        == json_safe_char(s[i]) by {}
    if !has_json_display_unsafe(s) {
        assert forall|i: int| 0 <= i < s.len() implies json_safe_text(s)[i] == s[i] by {
            assert(!json_display_unsafe_char(s[i]));
        }
    }
}

} // verus!
