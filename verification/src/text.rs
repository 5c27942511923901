use vstd::prelude::*;
use vstd::utf8::valid_utf8;

use crate::chars::{
    bidi_char, control_char, display_unsafe_char, formula_trigger, is_display_unsafe,
    is_formula_trigger, tsv_separator, is_bidi, is_control_char,
};
use crate::guard_input::GuardInput;
use crate::strings::{chars_vec, string_from_chars};
use crate::types::{DecodedStr, Guarded};
use crate::utf8::{bytes_text, decode_lossy};

verus! {

broadcast use vstd::seq_lib::group_seq_properties;

// ---------------------------------------------------------------------------
// What each sanitizer computes, over the decoded text.
// ---------------------------------------------------------------------------
/// The text without its display-unsafe characters (controls and bidi characters).
pub open spec fn display_text(s: Seq<char>) -> Seq<char> {
    s.filter(display_keep_fn())
}

/// Keeps what is not display-unsafe, as a function value.
pub open spec fn display_keep_fn() -> spec_fn(char) -> bool {
    |c: char| !display_unsafe_char(c)
}

/// `display_text`, cut to `max_chars` characters with a trailing U+2026 when longer.
pub open spec fn capped_text(s: Seq<char>, max_chars: nat) -> Seq<char> {
    let safe = display_text(s);
    if safe.len() > max_chars {
        safe.take(max_chars as int).push('\u{2026}')
    } else {
        safe
    }
}

/// What becomes of one character in a TSV cell: a separator turns into a space,
/// another display-unsafe character is dropped, the rest is kept.
pub open spec fn tsv_char(c: char) -> Option<char> {
    if tsv_separator(c) {
        Some(' ')
    } else if display_unsafe_char(c) {
        None
    } else {
        Some(c)
    }
}

/// A leading apostrophe in front of text that starts with a formula trigger.
pub open spec fn formula_guarded(s: Seq<char>) -> Seq<char> {
    if s.len() > 0 && formula_trigger(s[0]) {
        seq!['\''] + s
    } else {
        s
    }
}

/// The TSV cell for the text.
pub open spec fn tsv_text(s: Seq<char>) -> Seq<char> {
    formula_guarded(s.filter_map(tsv_map()))
}

/// `tsv_char` as a function value.
pub open spec fn tsv_map() -> spec_fn(char) -> Option<char> {
    |c: char| tsv_char(c)
}

/// A character kept in a CSV field: CR and LF (quoting carries them), and every
/// character that is not display-unsafe.
pub open spec fn csv_keeps(c: char) -> bool {
    c == '\n' || c == '\r' || !display_unsafe_char(c)
}

/// A character that makes RFC 4180 quoting necessary.
pub open spec fn csv_special(c: char) -> bool {
    c == ',' || c == '"' || c == '\n' || c == '\r'
}

/// Some character of `s` makes RFC 4180 quoting necessary.
pub open spec fn csv_needs_quotes(s: Seq<char>) -> bool {
    exists|i: int| 0 <= i < s.len() && #[trigger] csv_special(s[i])
}

/// `s` with every `"` doubled.
pub open spec fn double_quotes(s: Seq<char>) -> Seq<char>
    decreases s.len(),
{
    if s.len() == 0 {
        seq![]
    } else if s.last() == '"' {
        double_quotes(s.drop_last()) + seq!['"', '"']
    } else {
        double_quotes(s.drop_last()).push(s.last())
    }
}

/// The text of a CSV field before quoting: kept characters, formula-guarded.
pub open spec fn csv_guarded(s: Seq<char>) -> Seq<char> {
    formula_guarded(s.filter(csv_keep_fn()))
}

/// `csv_keeps` as a function value.
pub open spec fn csv_keep_fn() -> spec_fn(char) -> bool {
    |c: char| csv_keeps(c)
}

/// `s` as an RFC 4180 field: quoted, with `"` doubled, when it needs quoting.
pub open spec fn rfc4180_field(s: Seq<char>) -> Seq<char> {
    if csv_needs_quotes(s) {
        seq!['"'] + double_quotes(s) + seq!['"']
    } else {
        s
    }
}

/// The CSV field for the text.
pub open spec fn csv_text(s: Seq<char>) -> Seq<char> {
    rfc4180_field(csv_guarded(s))
}

// ---------------------------------------------------------------------------
// JSON string escaping.
// ---------------------------------------------------------------------------
/// The lowercase hexadecimal digit for `d` (taken modulo 16).
pub open spec fn hex_digit(d: int) -> char {
    let d = d % 16;
    if d == 0 { '0' } else if d == 1 { '1' } else if d == 2 { '2' } else if d == 3 { '3' }
    else if d == 4 { '4' } else if d == 5 { '5' } else if d == 6 { '6' } else if d == 7 { '7' }
    else if d == 8 { '8' } else if d == 9 { '9' } else if d == 10 { 'a' } else if d == 11 { 'b' }
    else if d == 12 { 'c' } else if d == 13 { 'd' } else if d == 14 { 'e' } else { 'f' }
}

/// The JSON escape `\uXXXX` of `c`, with four lowercase hexadecimal digits.
pub open spec fn unicode_escape(c: char) -> Seq<char> {
    let v = c as int;
    seq!['\\', 'u', hex_digit(v / 4096), hex_digit(v / 256), hex_digit(v / 16), hex_digit(v)]
}

/// How one character is written inside a JSON string: `"` and `\` and the
/// controls with a short form get a backslash escape; the other controls and the
/// bidi characters get a `\uXXXX` escape; everything else stands as it is.
pub open spec fn json_escape_char(c: char) -> Seq<char> {
    if c == '"' {
        seq!['\\', '"']
    } else if c == '\\' {
        seq!['\\', '\\']
    } else if c == '\u{0008}' {
        seq!['\\', 'b']
    } else if c == '\t' {
        seq!['\\', 't']
    } else if c == '\n' {
        seq!['\\', 'n']
    } else if c == '\u{000C}' {
        seq!['\\', 'f']
    } else if c == '\r' {
        seq!['\\', 'r']
    } else if control_char(c) || bidi_char(c) {
        unicode_escape(c)
    } else {
        seq![c]
    }
}

/// The body of a JSON string holding `s`.
pub open spec fn json_escape(s: Seq<char>) -> Seq<char>
    decreases s.len(),
{
    if s.len() == 0 {
        seq![]
    } else {
        json_escape(s.drop_last()) + json_escape_char(s.last())
    }
}

/// The JSON string literal holding `s`, quotes included.
pub open spec fn jsonl_text(s: Seq<char>) -> Seq<char> {
    seq!['"'] + json_escape(s) + seq!['"']
}

// ---------------------------------------------------------------------------
// The sanitizers.
// ---------------------------------------------------------------------------
/// Decodes bytes as UTF-8, replacing each invalid sequence with U+FFFD; `lossy`
/// tells whether any was replaced.
pub fn bytes_to_utf8_lossy_safe(bytes: &[u8]) -> (d: DecodedStr)
    ensures
        d.text@ == bytes_text(bytes@),
        d.lossy == !valid_utf8(bytes@),
{
    let (text, lossy) = decode_lossy(bytes);
    DecodedStr { text, lossy }
}

/// The characters of `cs` that are not display-unsafe.
fn strip_display_unsafe(cs: &Vec<char>) -> (out: Vec<char>)
    ensures
        out@ == display_text(cs@),
{
    let mut out: Vec<char> = Vec::new();
    let mut i: usize = 0;
    while i < cs.len()
        invariant
            i <= cs.len(),
            out@ == display_text(cs@.take(i as int)),
        decreases cs.len() - i,
    {
        let c = cs[i];
        proof {
            assert(cs@.take(i + 1) == cs@.take(i as int).push(c));
            cs@.take(i as int).lemma_filter_push(c, display_keep_fn());
        }
        if !is_display_unsafe(c) {
            out.push(c);
        }
        i = i + 1;
    }
    assert(cs@.take(cs@.len() as int) == cs@);
    out
}

/// Strips control characters (C0, DEL, C1) and bidi characters.
pub fn display_safe<I: GuardInput>(input: I) -> (g: Guarded)
    ensures
        g.value@ == display_text(input.text_view()),
        g.lossy == input.lossy_view(),
{
    let (text, lossy) = input.as_utf8_lossy();
    let cs = chars_vec(text.as_str());
    let safe = strip_display_unsafe(&cs);
    Guarded { value: string_from_chars(&safe), lossy }
}

/// `display_safe`, then cut to `max_chars` characters, with a trailing U+2026
/// when anything was cut. The cut never splits a character.
pub fn cap_display<I: GuardInput>(input: I, max_chars: usize) -> (g: Guarded)
    ensures
        g.value@ == capped_text(input.text_view(), max_chars as nat),
        g.lossy == input.lossy_view(),
{
    let (text, lossy) = input.as_utf8_lossy();
    let cs = chars_vec(text.as_str());
    let mut safe = strip_display_unsafe(&cs);
    if safe.len() > max_chars {
        safe.truncate(max_chars);
        safe.push('\u{2026}');
    }
    Guarded { value: string_from_chars(&safe), lossy }
}

/// Puts an apostrophe in front of `cs` when it starts with a formula trigger.
fn guard_formula(cs: &mut Vec<char>)
    ensures
        final(cs)@ == formula_guarded(old(cs)@),
{
    if cs.len() > 0 && is_formula_trigger(cs[0]) {
        cs.insert(0, '\'');
        assert(cs@ == seq!['\''] + old(cs)@);
    }
}

/// Replaces TAB, CR and LF with a space, strips the other control characters
/// and the bidi characters, and puts an apostrophe in front of a formula lead-in.
pub fn tsv_safe<I: GuardInput>(input: I) -> (g: Guarded)
    ensures
        g.value@ == tsv_text(input.text_view()),
        g.lossy == input.lossy_view(),
{
    let (text, lossy) = input.as_utf8_lossy();
    let cs = chars_vec(text.as_str());
    let mut out: Vec<char> = Vec::new();
    let mut i: usize = 0;
    while i < cs.len()
        invariant
            i <= cs.len(),
            out@ == cs@.take(i as int).filter_map(tsv_map()),
        decreases cs.len() - i,
    {
        let c = cs[i];
        proof {
            cs@.lemma_filter_map_take_succ(tsv_map(), i as int);
        }
        if c == '\t' || c == '\n' || c == '\r' {
            out.push(' ');
        } else if !is_display_unsafe(c) {
            out.push(c);
        }
        i = i + 1;
    }
    assert(cs@.take(cs@.len() as int) == cs@);
    guard_formula(&mut out);
    Guarded { value: string_from_chars(&out), lossy }
}

/// Some character of `cs` is a comma, a double quote, CR or LF.
fn needs_csv_quoting(cs: &Vec<char>) -> (r: bool)
    ensures
        r == csv_needs_quotes(cs@),
{
    let mut i: usize = 0;
    while i < cs.len()
        invariant
            i <= cs.len(),
            forall|k: int| 0 <= k < i ==> !csv_special(#[trigger] cs@[k]),
        decreases cs.len() - i,
    {
        let c = cs[i];
        if c == ',' || c == '"' || c == '\n' || c == '\r' {
            assert(csv_special(cs@[i as int]));
            return true;
        }
        i = i + 1;
    }
    false
}

/// Escapes one field per RFC 4180: strips display-unsafe characters but CR and
/// LF, puts an apostrophe in front of a formula lead-in, then quotes the field and
/// doubles its quotes when it holds a comma, a quote, CR or LF.
pub fn csv_field<I: GuardInput>(input: I) -> (g: Guarded)
    ensures
        g.value@ == csv_text(input.text_view()),
        g.lossy == input.lossy_view(),
{
    let (text, lossy) = input.as_utf8_lossy();
    let cs = chars_vec(text.as_str());
    let mut cleaned: Vec<char> = Vec::new();
    let mut i: usize = 0;
    while i < cs.len()
        invariant
            i <= cs.len(),
            cleaned@ == cs@.take(i as int).filter(csv_keep_fn()),
        decreases cs.len() - i,
    {
        let c = cs[i];
        proof {
            assert(cs@.take(i + 1) == cs@.take(i as int).push(c));
            cs@.take(i as int).lemma_filter_push(c, csv_keep_fn());
        }
        if c == '\n' || c == '\r' || !is_display_unsafe(c) {
            cleaned.push(c);
        }
        i = i + 1;
    }
    assert(cs@.take(cs@.len() as int) == cs@);
    guard_formula(&mut cleaned);
    let guarded = cleaned;
    if needs_csv_quoting(&guarded) {
        let mut out: Vec<char> = Vec::new();
        out.push('"');
        let mut j: usize = 0;
        while j < guarded.len()
            invariant
                j <= guarded.len(),
                out@ == seq!['"'] + double_quotes(guarded@.take(j as int)),
            decreases guarded.len() - j,
        {
            let c = guarded[j];
            assert(guarded@.take(j + 1).drop_last() == guarded@.take(j as int));
            if c == '"' {
                out.push('"');
                out.push('"');
            } else {
                out.push(c);
            }
            j = j + 1;
        }
        assert(guarded@.take(guarded@.len() as int) == guarded@);
        out.push('"');
        Guarded { value: string_from_chars(&out), lossy }
    } else {
        Guarded { value: string_from_chars(&guarded), lossy }
    }
}

fn hex_digit_char(d: u32) -> (c: char)
    requires
        d < 16,
    ensures
        c == hex_digit(d as int),
{
    match d {
        0 => '0',
        1 => '1',
        2 => '2',
        3 => '3',
        4 => '4',
        5 => '5',
        6 => '6',
        7 => '7',
        8 => '8',
        9 => '9',
        10 => 'a',
        11 => 'b',
        12 => 'c',
        13 => 'd',
        14 => 'e',
        _ => 'f',
    }
}

/// Appends the `\uXXXX` escape of `c` to `out`.
fn push_unicode_escape(out: &mut Vec<char>, c: char)
    ensures
        final(out)@ == old(out)@ + unicode_escape(c),
{
    let v = c as u32;
    out.push('\\');
    out.push('u');
    out.push(hex_digit_char((v / 4096) % 16));
    out.push(hex_digit_char((v / 256) % 16));
    out.push(hex_digit_char((v / 16) % 16));
    out.push(hex_digit_char(v % 16));
    assert(out@ == old(out)@ + unicode_escape(c));
}

/// Appends the JSON form of `c` to `out`.
fn push_json_escaped(out: &mut Vec<char>, c: char)
    ensures
        final(out)@ == old(out)@ + json_escape_char(c),
{
    if c == '"' {
        out.push('\\');
        out.push('"');
    } else if c == '\\' {
        out.push('\\');
        out.push('\\');
    } else if c == '\u{0008}' {
        out.push('\\');
        out.push('b');
    } else if c == '\t' {
        out.push('\\');
        out.push('t');
    } else if c == '\n' {
        out.push('\\');
        out.push('n');
    } else if c == '\u{000C}' {
        out.push('\\');
        out.push('f');
    } else if c == '\r' {
        out.push('\\');
        out.push('r');
    } else if is_control_char(c) || is_bidi(c) {
        push_unicode_escape(out, c);
    } else {
        out.push(c);
    }
}

/// Writes the text as one JSON string value, quotes included: `"` and `\` are
/// escaped, the control characters and the bidi characters are written as
/// escapes, so nothing is lost and nothing breaks out of the string.
pub fn jsonl_safe<I: GuardInput>(input: I) -> (g: Guarded)
    ensures
        g.value@ == jsonl_text(input.text_view()),
        g.lossy == input.lossy_view(),
{
    let (text, lossy) = input.as_utf8_lossy();
    let cs = chars_vec(text.as_str());
    let mut out: Vec<char> = Vec::new();
    out.push('"');
    let mut i: usize = 0;
    while i < cs.len()
        invariant
            i <= cs.len(),
            out@ == seq!['"'] + json_escape(cs@.take(i as int)),
        decreases cs.len() - i,
    {
        assert(cs@.take(i + 1).drop_last() == cs@.take(i as int));
        push_json_escaped(&mut out, cs[i]);
        i = i + 1;
    }
    assert(cs@.take(cs@.len() as int) == cs@);
    out.push('"');
    Guarded { value: string_from_chars(&out), lossy }
}

} // verus!

