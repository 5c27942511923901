use vstd::prelude::*;
use vstd::utf8::{encode_scalar, encode_utf8, valid_utf8};

use crate::chars::{
    bidi_char, control_char, formula_trigger, is_bidi, is_control_char, is_formula_trigger,
    is_lead_in_filler, lead_in_filler, len_utf8, utf8_width,
};
use crate::guard_input::GuardInput;
use crate::strings::{chars_vec, utf8_byte_len};
use crate::types::{Findings, Violation, ViolationKind};
use crate::utf8::{first_utf8_error, utf8_error_len, valid_prefix_len, valid_prefix_upto};

verus! {

broadcast use vstd::seq_lib::group_seq_properties;

// ---------------------------------------------------------------------------
// Byte offsets of characters.
// ---------------------------------------------------------------------------
/// The byte offset at which character `j` of `text` starts in its UTF-8 encoding.
pub open spec fn byte_offset_of(text: Seq<char>, j: int) -> nat {
    encode_utf8(text.take(j)).len()
}

/// Encoding a concatenation concatenates the encodings.
pub(crate) proof fn lemma_encode_utf8_add(a: Seq<char>, b: Seq<char>)
    ensures
        encode_utf8(a + b) == encode_utf8(a) + encode_utf8(b),
    decreases a.len(),
{
    if a.len() == 0 {
        assert(a + b == b);
    } else {
        assert((a + b).drop_first() == a.drop_first() + b);
        lemma_encode_utf8_add(a.drop_first(), b);
    }
}

/// A character takes `utf8_width` bytes.
proof fn lemma_encode_utf8_char(c: char)
    ensures
        encode_utf8(seq![c]).len() == utf8_width(c),
{
    broadcast use vstd::utf8::char_is_scalar;

    assert(seq![c].drop_first() == Seq::<char>::empty());
    assert(encode_utf8(seq![c]) == encode_scalar(c as u32) + encode_utf8(Seq::<char>::empty()));
}

/// The offset of the next character is the offset of this one plus its width.
proof fn lemma_byte_offset_step(text: Seq<char>, j: int)
    requires
        0 <= j < text.len(),
    ensures
        byte_offset_of(text, j + 1) == byte_offset_of(text, j) + utf8_width(text[j]),
{
    assert(text.take(j + 1) == text.take(j) + seq![text[j]]);
    lemma_encode_utf8_add(text.take(j), seq![text[j]]);
    lemma_encode_utf8_char(text[j]);
}

/// Offsets grow with the index, up to the length of the whole encoding.
pub(crate) proof fn lemma_byte_offset_mono(text: Seq<char>, j: int, k: int)
    requires
        0 <= j <= k <= text.len(),
    ensures
        byte_offset_of(text, j) <= byte_offset_of(text, k),
{
    assert(text.take(k) == text.take(j) + text.subrange(j, k));
    lemma_encode_utf8_add(text.take(j), text.subrange(j, k));
}

// ---------------------------------------------------------------------------
// What `inspect` reports.
// ---------------------------------------------------------------------------
/// Character `j` is the first one that is not a lead-in filler: the character
/// that a spreadsheet's formula parser sees first.
pub open spec fn is_first_visible(text: Seq<char>, j: int) -> bool {
    &&& 0 <= j < text.len()
    &&& !lead_in_filler(text[j])
    &&& forall|k: int| 0 <= k < j ==> lead_in_filler(#[trigger] text[k])
}

/// The findings for character `j`: a formula lead-in when it is the first visible
/// character and a formula trigger; then a bidi or a control finding.
pub open spec fn char_violations(text: Seq<char>, j: int) -> Seq<Violation> {
    let c = text[j];
    let at = byte_offset_of(text, j) as usize;
    let formula = if is_first_visible(text, j) && formula_trigger(c) {
        seq![Violation { kind: ViolationKind::FormulaInjection, byte_offset: at, char: Some(c) }]
    } else {
        seq![]
    };
    let class = if bidi_char(c) {
        seq![Violation { kind: ViolationKind::BidiOverride, byte_offset: at, char: Some(c) }]
    } else if control_char(c) {
        seq![Violation { kind: ViolationKind::ControlChar, byte_offset: at, char: Some(c) }]
    } else {
        seq![]
    };
    formula + class
}

/// The findings for the first `n` characters, in character order.
pub open spec fn text_violations_upto(text: Seq<char>, n: int) -> Seq<Violation>
    decreases n,
{
    if n <= 0 {
        seq![]
    } else {
        text_violations_upto(text, n - 1) + char_violations(text, n - 1)
    }
}

/// The findings for the decoded text.
pub open spec fn text_violations(text: Seq<char>) -> Seq<Violation> {
    text_violations_upto(text, text.len() as int)
}

/// The invalid UTF-8 sequences of `bytes` from `start` on, each at its byte offset.
/// A valid run is skipped whole; at an invalid sequence the finding is made, and
/// the search goes on after the sequence's length as `from_utf8` reports it where
/// the sequence starts (after the whole rest, when the input ends inside one).
pub open spec fn invalid_violations_from(bytes: Seq<u8>, start: int) -> Seq<Violation>
    decreases bytes.len() - start,
{
    if start < 0 || start >= bytes.len() || valid_utf8(bytes.skip(start)) {
        seq![]
    } else {
        let rest = bytes.skip(start);
        let run = valid_prefix_len(rest);
        if run > 0 {
            if start + run > bytes.len() {
                // A valid prefix lies within the input, so this does not happen.
                seq![]
            } else {
                invalid_violations_from(bytes, start + run)
            }
        } else {
            let found = Violation {
                kind: ViolationKind::InvalidUtf8,
                byte_offset: start as usize,
                char: None,
            };
            let next = match utf8_error_len(rest) {
                Some(n) => start + n,
                None => bytes.len() as int,
            };
            if next <= start || next > bytes.len() {
                // An error length is at least one byte and lies within the input,
                // so this does not happen.
                seq![found]
            } else {
                seq![found] + invalid_violations_from(bytes, next)
            }
        }
    }
}

/// The invalid UTF-8 findings of an input: none for text input.
pub open spec fn invalid_violations(raw: Option<Seq<u8>>) -> Seq<Violation> {
    match raw {
        Some(bytes) => invalid_violations_from(bytes, 0),
        None => seq![],
    }
}

/// The stable merge of two lists by byte offset; on equal offsets `a` comes first.
pub open spec fn merge_by_offset(a: Seq<Violation>, b: Seq<Violation>) -> Seq<Violation>
    decreases a.len() + b.len(),
{
    if a.len() == 0 {
        b
    } else if b.len() == 0 {
        a
    } else if a[0].byte_offset <= b[0].byte_offset {
        seq![a[0]] + merge_by_offset(a.drop_first(), b)
    } else {
        seq![b[0]] + merge_by_offset(a, b.drop_first())
    }
}

/// All that `inspect` reports for an input.
pub open spec fn inspect_violations(raw: Option<Seq<u8>>, text: Seq<char>) -> Seq<Violation> {
    merge_by_offset(invalid_violations(raw), text_violations(text))
}

// ---------------------------------------------------------------------------
// The scan.
// ---------------------------------------------------------------------------
pub(crate) proof fn lemma_valid_prefix_upto_le(bytes: Seq<u8>, limit: nat)
    ensures
        valid_prefix_upto(bytes, limit) <= limit,
        limit > 0 && !valid_utf8(bytes.take(limit as int)) ==> valid_prefix_upto(bytes, limit)
            < limit,
    decreases limit,
{
    if limit > 0 && !valid_utf8(bytes.take(limit as int)) {
        lemma_valid_prefix_upto_le(bytes, (limit - 1) as nat);
    }
}

/// The invalid UTF-8 findings of `bytes`.
fn scan_invalid_utf8(bytes: &[u8]) -> (out: Vec<Violation>)
    ensures
        out@ == invalid_violations_from(bytes@, 0),
{
    let len = bytes.len();
    let mut out: Vec<Violation> = Vec::new();
    let mut i: usize = 0;
    while i < len
        invariant
            len == bytes@.len(),
            i <= len,
            out@ + invalid_violations_from(bytes@, i as int) == invalid_violations_from(bytes@, 0),
        decreases len - i,
    {
        let rest = vstd::slice::slice_subrange(bytes, i, len);
        assert(rest@ == bytes@.skip(i as int));
        match first_utf8_error(rest) {
            None => {
                assert(invalid_violations_from(bytes@, i as int) == Seq::<Violation>::empty());
                assert(invalid_violations_from(bytes@, len as int) == Seq::<Violation>::empty());
                i = len;
            },
            Some((valid_up_to, error_len)) => {
                proof {
                    lemma_valid_prefix_upto_le(rest@, rest@.len());
                    assert(rest@.take(rest@.len() as int) == rest@);
                }
                if valid_up_to > 0 {
                    // Skip the valid run; the error length is read where the
                    // invalid sequence starts.
                    assert(invalid_violations_from(bytes@, i as int) == invalid_violations_from(
                        bytes@,
                        (i + valid_up_to) as int,
                    ));
                    i = i + valid_up_to;
                } else {
                    let found = Violation {
                        kind: ViolationKind::InvalidUtf8,
                        byte_offset: i,
                        char: None,
                    };
                    let ghost old_out = out@;
                    out.push(found);
                    let next = match error_len {
                        Some(n) => i + n,
                        None => len,
                    };
                    assert(invalid_violations_from(bytes@, i as int) == seq![found]
                        + invalid_violations_from(bytes@, next as int));
                    assert(out@ + invalid_violations_from(bytes@, next as int) == old_out + (
                    seq![found] + invalid_violations_from(bytes@, next as int)));
                    i = next;
                }
            },
        }
    }
    assert(invalid_violations_from(bytes@, i as int) == Seq::<Violation>::empty());
    assert(out@ + Seq::<Violation>::empty() == out@);
    out
}

/// The formula, bidi and control findings of `text`, in character order.
fn scan_text(text: &String) -> (out: Vec<Violation>)
    ensures
        out@ == text_violations(text@),
{
    let total = utf8_byte_len(text);
    let cs = chars_vec(text.as_str());
    assert(cs@.take(cs@.len() as int) == cs@);
    let mut out: Vec<Violation> = Vec::new();
    let mut byte_offset: usize = 0;
    let mut lead_in_pending = true;
    let mut j: usize = 0;
    while j < cs.len()
        invariant
            j <= cs.len(),
            cs@ == text@,
            total == byte_offset_of(cs@, cs@.len() as int),
            byte_offset == byte_offset_of(cs@, j as int),
            lead_in_pending == (forall|k: int| 0 <= k < j ==> lead_in_filler(#[trigger] cs@[k])),
            out@ == text_violations_upto(cs@, j as int),
        decreases cs.len() - j,
    {
        let ch = cs[j];
        let ghost before = out@;
        proof {
            lemma_byte_offset_step(cs@, j as int);
            lemma_byte_offset_mono(cs@, j + 1, cs@.len() as int);
        }
        let mut formula: Vec<Violation> = Vec::new();
        if lead_in_pending && !is_lead_in_filler(ch) {
            lead_in_pending = false;
            assert(is_first_visible(cs@, j as int));
            if is_formula_trigger(ch) {
                formula.push(
                    Violation {
                        kind: ViolationKind::FormulaInjection,
                        byte_offset,
                        char: Some(ch),
                    },
                );
            }
        } else {
            assert(!is_first_visible(cs@, j as int));
        }
        let mut class: Vec<Violation> = Vec::new();
        if is_bidi(ch) {
            class.push(Violation { kind: ViolationKind::BidiOverride, byte_offset, char: Some(ch) });
        } else if is_control_char(ch) {
            class.push(Violation { kind: ViolationKind::ControlChar, byte_offset, char: Some(ch) });
        }
        assert(formula@ + class@ == char_violations(cs@, j as int));
        out.append(&mut formula);
        out.append(&mut class);
        assert(out@ == before + char_violations(cs@, j as int));
        byte_offset = byte_offset + len_utf8(ch);
        j = j + 1;
        assert(lead_in_pending == (forall|k: int|
            0 <= k < j ==> lead_in_filler(#[trigger] cs@[k])));
    }
    out
}

/// The stable merge of `a` and `b` by byte offset.
fn merge_violations(a: &Vec<Violation>, b: &Vec<Violation>) -> (out: Vec<Violation>)
    ensures
        out@ == merge_by_offset(a@, b@),
{
    let mut out: Vec<Violation> = Vec::new();
    let mut i: usize = 0;
    let mut k: usize = 0;
    assert(a@.skip(0) == a@);
    assert(b@.skip(0) == b@);
    while i < a.len() || k < b.len()
        invariant
            i <= a.len(),
            k <= b.len(),
            out@ + merge_by_offset(a@.skip(i as int), b@.skip(k as int)) == merge_by_offset(a@, b@),
        decreases a.len() + b.len() - i - k,
    {
        let ghost before = out@;
        let ghost sa = a@.skip(i as int);
        let ghost sb = b@.skip(k as int);
        if k == b.len() || (i < a.len() && a[i].byte_offset <= b[k].byte_offset) {
            assert(sa.drop_first() == a@.skip(i + 1));
            assert(merge_by_offset(sa, sb) == seq![a@[i as int]] + merge_by_offset(
                a@.skip(i + 1),
                sb,
            )) by {
                if sb.len() == 0 {
                    assert(merge_by_offset(sa, sb) == sa);
                    assert(merge_by_offset(a@.skip(i + 1), sb) == a@.skip(i + 1));
                    assert(sa == seq![a@[i as int]] + a@.skip(i + 1));
                }
            }
            out.push(a[i]);
            assert(out@ + merge_by_offset(a@.skip(i + 1), sb) == before + merge_by_offset(sa, sb));
            i = i + 1;
        } else {
            assert(sb.drop_first() == b@.skip(k + 1));
            assert(merge_by_offset(sa, sb) == seq![b@[k as int]] + merge_by_offset(
                sa,
                b@.skip(k + 1),
            )) by {
                if sa.len() == 0 {
                    assert(merge_by_offset(sa, sb) == sb);
                    assert(merge_by_offset(sa, b@.skip(k + 1)) == b@.skip(k + 1));
                    assert(sb == seq![b@[k as int]] + b@.skip(k + 1));
                }
            }
            out.push(b[k]);
            assert(out@ + merge_by_offset(sa, b@.skip(k + 1)) == before + merge_by_offset(sa, sb));
            k = k + 1;
        }
    }
    assert(a@.skip(i as int).len() == 0);
    assert(b@.skip(k as int).len() == 0);
    assert(out@ + Seq::<Violation>::empty() == out@);
    out
}

/// Scans the input without changing it and reports every finding with its byte
/// offset: invalid UTF-8 sequences of byte input (offsets in the raw bytes), a
/// formula lead-in at the first character that is neither white space nor a
/// format character, and every bidi and control character (offsets in the decoded
/// text). The report is ordered by byte offset.
pub fn inspect<I: GuardInput>(input: I) -> (f: Findings)
    ensures
        f.violations@ == inspect_violations(input.raw_view(), input.text_view()),
        f.lossy == input.lossy_view(),
{
    let raw = input.raw_bytes();
    let (text, lossy) = input.as_utf8_lossy();
    let invalid = match raw {
        Some(bytes) => scan_invalid_utf8(bytes),
        None => Vec::new(),
    };
    let found = scan_text(&text);
    let violations = merge_violations(&invalid, &found);
    Findings { violations, lossy }
}

} // verus!
