use vstd::prelude::*;
use vstd::utf8::{encode_utf8, valid_utf8};

use crate::chars::{display_unsafe_char, formula_trigger};
use crate::inspect::{
    byte_offset_of, char_violations, inspect_violations, invalid_violations,
    invalid_violations_from, is_first_visible, merge_by_offset, text_violations,
    text_violations_upto,
};
use crate::types::{blocks_csv, blocks_jsonl, csv_blocked, has_kind, jsonl_blocked, Violation, ViolationKind};
use crate::utf8::{bytes_text, utf8_error_len, valid_prefix_len, valid_prefix_upto};

verus! {

broadcast use vstd::seq_lib::group_seq_properties;

/// The violations are in nondecreasing order of byte offset.
pub open spec fn sorted_by_offset(vs: Seq<Violation>) -> bool {
    forall|i: int, j: int| 0 <= i <= j < vs.len() ==> vs[i].byte_offset <= vs[j].byte_offset
}

// ---------------------------------------------------------------------------
// Merging.
// ---------------------------------------------------------------------------
/// The merge holds exactly the elements of its two lists.
proof fn lemma_merge_contains(a: Seq<Violation>, b: Seq<Violation>)
    ensures
        forall|x: Violation| #[trigger]
            merge_by_offset(a, b).contains(x) <==> a.contains(x) || b.contains(x),
    decreases a.len() + b.len(),
{
    let m = merge_by_offset(a, b);
    if a.len() == 0 {
    } else if b.len() == 0 {
    } else if a[0].byte_offset <= b[0].byte_offset {
        lemma_merge_contains(a.drop_first(), b);
        assert(a == seq![a[0]] + a.drop_first());
        assert forall|x: Violation| #[trigger] m.contains(x) <==> a.contains(x) || b.contains(
            x,
        ) by {
            if m.contains(x) {
                let k = choose|k: int| 0 <= k < m.len() && m[k] == x;
                if k > 0 {
                    assert(merge_by_offset(a.drop_first(), b)[k - 1] == x);
                }
            }
            if a.contains(x) {
                let k = choose|k: int| 0 <= k < a.len() && a[k] == x;
                if k == 0 {
                    assert(m[0] == x);
                } else {
                    assert(a.drop_first()[k - 1] == x);
                    assert(merge_by_offset(a.drop_first(), b).contains(x));
                    let k2 = choose|k2: int|
                        0 <= k2 < merge_by_offset(a.drop_first(), b).len() && merge_by_offset(
                            a.drop_first(),
                            b,
                        )[k2] == x;
                    assert(m[k2 + 1] == x);
                }
            }
            if b.contains(x) {
                assert(merge_by_offset(a.drop_first(), b).contains(x));
                let k2 = choose|k2: int|
                    0 <= k2 < merge_by_offset(a.drop_first(), b).len() && merge_by_offset(
                        a.drop_first(),
                        b,
                    )[k2] == x;
                assert(m[k2 + 1] == x);
            }
        }
    } else {
        lemma_merge_contains(a, b.drop_first());
        assert(b == seq![b[0]] + b.drop_first());
        assert forall|x: Violation| #[trigger] m.contains(x) <==> a.contains(x) || b.contains(
            x,
        ) by {
            if m.contains(x) {
                let k = choose|k: int| 0 <= k < m.len() && m[k] == x;
                if k > 0 {
                    assert(merge_by_offset(a, b.drop_first())[k - 1] == x);
                }
            }
            if b.contains(x) {
                let k = choose|k: int| 0 <= k < b.len() && b[k] == x;
                if k == 0 {
                    assert(m[0] == x);
                } else {
                    assert(b.drop_first()[k - 1] == x);
                    assert(merge_by_offset(a, b.drop_first()).contains(x));
                    let k2 = choose|k2: int|
                        0 <= k2 < merge_by_offset(a, b.drop_first()).len() && merge_by_offset(
                            a,
                            b.drop_first(),
                        )[k2] == x;
                    assert(m[k2 + 1] == x);
                }
            }
            if a.contains(x) {
                assert(merge_by_offset(a, b.drop_first()).contains(x));
                let k2 = choose|k2: int|
                    0 <= k2 < merge_by_offset(a, b.drop_first()).len() && merge_by_offset(
                        a,
                        b.drop_first(),
                    )[k2] == x;
                assert(m[k2 + 1] == x);
            }
        }
    }
}

/// Merging two sorted lists gives a sorted list.
proof fn lemma_merge_sorted(a: Seq<Violation>, b: Seq<Violation>)
    requires
        sorted_by_offset(a),
        sorted_by_offset(b),
    ensures
        sorted_by_offset(merge_by_offset(a, b)),
    decreases a.len() + b.len(),
{
    let m = merge_by_offset(a, b);
    if a.len() > 0 && b.len() > 0 {
        let (h, a2, b2) = if a[0].byte_offset <= b[0].byte_offset {
            (a[0], a.drop_first(), b)
        } else {
            (b[0], a, b.drop_first())
        };
        assert(sorted_by_offset(a2));
        assert(sorted_by_offset(b2));
        lemma_merge_sorted(a2, b2);
        lemma_merge_contains(a2, b2);
        let rest = merge_by_offset(a2, b2);
        assert(m == seq![h] + rest);
        assert forall|j: int| 0 <= j < rest.len() implies h.byte_offset <= #[trigger] rest[j].byte_offset by {
            assert(rest.contains(rest[j]));
            if a2.contains(rest[j]) {
                let k = choose|k: int| 0 <= k < a2.len() && a2[k] == rest[j];
                assert(a.contains(a2[k]));
            } else {
                let k = choose|k: int| 0 <= k < b2.len() && b2[k] == rest[j];
                assert(b.contains(b2[k]));
            }
        }
        assert forall|i: int, j: int| 0 <= i <= j < m.len() implies m[i].byte_offset
            <= m[j].byte_offset by {
            if i > 0 {
                assert(m[i] == rest[i - 1] && m[j] == rest[j - 1]);
            } else if j > 0 {
                assert(m[j] == rest[j - 1]);
            }
        }
    }
}

// ---------------------------------------------------------------------------
// The invalid UTF-8 findings.
// ---------------------------------------------------------------------------
/// A finding of an invalid sequence: where it starts, the bytes are not valid
/// UTF-8 and no nonempty prefix of them is.
pub open spec fn starts_invalid_sequence(bytes: Seq<u8>, v: Violation) -> bool {
    &&& v.kind == ViolationKind::InvalidUtf8
    &&& v.char == None::<char>
    &&& v.byte_offset < bytes.len()
    &&& !valid_utf8(bytes.skip(v.byte_offset as int))
    &&& valid_prefix_len(bytes.skip(v.byte_offset as int)) == 0
}

/// The length that `from_utf8` reports for the invalid sequence at `at`, when it
/// is as documented: at least one byte, within the input.
pub open spec fn sequence_len_at(bytes: Seq<u8>, at: int) -> Option<int> {
    match utf8_error_len(bytes.skip(at)) {
        Some(n) => if 1 <= n && at + n <= bytes.len() {
            Some(n as int)
        } else {
            None
        },
        None => None,
    }
}

/// The longest valid prefix is valid.
proof fn lemma_valid_prefix_valid(bytes: Seq<u8>, limit: nat)
    requires
        limit <= bytes.len(),
    ensures
        valid_utf8(bytes.take(valid_prefix_upto(bytes, limit) as int)),
    decreases limit,
{
    if limit == 0 {
        assert(bytes.take(0) == Seq::<u8>::empty());
    } else if !valid_utf8(bytes.take(limit as int)) {
        lemma_valid_prefix_valid(bytes, (limit - 1) as nat);
    }
}

/// Unfolding the findings from `start` one step.
proof fn lemma_invalid_unfold(bytes: Seq<u8>, start: int)
    requires
        0 <= start < bytes.len(),
        !valid_utf8(bytes.skip(start)),
    ensures
        valid_prefix_len(bytes.skip(start)) <= bytes.len() - start,
        valid_utf8(bytes.subrange(start, start + valid_prefix_len(bytes.skip(start)))),
        valid_prefix_len(bytes.skip(start)) > 0 ==> invalid_violations_from(bytes, start)
            == invalid_violations_from(bytes, start + valid_prefix_len(bytes.skip(start))),
{
    let rest = bytes.skip(start);
    crate::inspect::lemma_valid_prefix_upto_le(rest, rest.len());
    lemma_valid_prefix_valid(rest, rest.len());
    assert(bytes.subrange(start, start + valid_prefix_len(rest)) == rest.take(
        valid_prefix_len(rest) as int,
    ));
}

/// The invalid UTF-8 findings from `start` on are sorted, and each lies at or
/// after `start`, at the start of an invalid sequence.
proof fn lemma_invalid_from(bytes: Seq<u8>, start: int)
    requires
        0 <= start <= bytes.len(),
        bytes.len() <= usize::MAX,
    ensures
        sorted_by_offset(invalid_violations_from(bytes, start)),
        forall|i: int|
            0 <= i < invalid_violations_from(bytes, start).len() ==> start <= (
            #[trigger] invalid_violations_from(bytes, start)[i]).byte_offset
                && starts_invalid_sequence(bytes, invalid_violations_from(bytes, start)[i]),
    decreases bytes.len() - start,
{
    let vs = invalid_violations_from(bytes, start);
    if start < bytes.len() && !valid_utf8(bytes.skip(start)) {
        lemma_invalid_unfold(bytes, start);
        let rest = bytes.skip(start);
        let run = valid_prefix_len(rest);
        if run > 0 {
            lemma_invalid_from(bytes, start + run);
        } else {
            let next = match utf8_error_len(rest) {
                Some(n) => start + n,
                None => bytes.len() as int,
            };
            assert(starts_invalid_sequence(bytes, vs[0]));
            if !(next <= start || next > bytes.len()) {
                lemma_invalid_from(bytes, next);
                let tail = invalid_violations_from(bytes, next);
                assert(vs == seq![vs[0]] + tail);
                assert forall|i: int, j: int| 0 <= i <= j < vs.len() implies vs[i].byte_offset
                    <= vs[j].byte_offset by {
                    if i > 0 {
                        assert(vs[i] == tail[i - 1] && vs[j] == tail[j - 1]);
                    } else if j > 0 {
                        assert(vs[j] == tail[j - 1]);
                    }
                }
                assert forall|i: int| 0 <= i < vs.len() implies start <= (
                #[trigger] vs[i]).byte_offset && starts_invalid_sequence(bytes, vs[i]) by {
                    if i > 0 {
                        assert(vs[i] == tail[i - 1]);
                    }
                }
            }
        }
    }
}

/// The bytes from `start` to the first finding are valid UTF-8; all the rest is,
/// when there is no finding.
proof fn lemma_invalid_from_gap(bytes: Seq<u8>, start: int)
    requires
        0 <= start <= bytes.len(),
        bytes.len() <= usize::MAX,
    ensures
        invalid_violations_from(bytes, start).len() == 0 ==> valid_utf8(bytes.skip(start)),
        invalid_violations_from(bytes, start).len() > 0 ==> valid_utf8(
            bytes.subrange(start, invalid_violations_from(bytes, start)[0].byte_offset as int),
        ),
    decreases bytes.len() - start,
{
    let vs = invalid_violations_from(bytes, start);
    if start == bytes.len() {
        assert(bytes.skip(start) == Seq::<u8>::empty());
    } else if !valid_utf8(bytes.skip(start)) {
        lemma_invalid_unfold(bytes, start);
        let run = valid_prefix_len(bytes.skip(start));
        if run > 0 {
            lemma_invalid_from_gap(bytes, start + run);
            let head = bytes.subrange(start, start + run);
            if vs.len() == 0 {
                assert(bytes.skip(start) == head + bytes.skip(start + run));
                vstd::utf8::valid_utf8_concat(head, bytes.skip(start + run));
            } else {
                lemma_invalid_from(bytes, start + run);
                let at = vs[0].byte_offset as int;
                assert(bytes.subrange(start, at) == head + bytes.subrange(start + run, at));
                vstd::utf8::valid_utf8_concat(head, bytes.subrange(start + run, at));
            }
        } else {
            assert(bytes.subrange(start, start) == Seq::<u8>::empty());
        }
    }
}

/// After a finding whose sequence length is as documented, the next finding
/// lies past that sequence with only valid bytes between; when the input ends
/// inside the sequence there is no next finding; after the last finding the
/// bytes past its sequence are valid.
proof fn lemma_invalid_from_steps(bytes: Seq<u8>, start: int)
    requires
        0 <= start <= bytes.len(),
        bytes.len() <= usize::MAX,
    ensures
        forall|i: int|
            0 <= i < invalid_violations_from(bytes, start).len() - 1 ==> after_sequence(
                bytes,
                #[trigger] invalid_violations_from(bytes, start)[i],
                invalid_violations_from(bytes, start)[i + 1],
            ),
        invalid_violations_from(bytes, start).len() > 0 ==> after_last_sequence(
            bytes,
            invalid_violations_from(bytes, start).last(),
        ),
    decreases bytes.len() - start,
{
    let vs = invalid_violations_from(bytes, start);
    if start < bytes.len() && !valid_utf8(bytes.skip(start)) {
        lemma_invalid_unfold(bytes, start);
        let rest = bytes.skip(start);
        let run = valid_prefix_len(rest);
        if run > 0 {
            lemma_invalid_from_steps(bytes, start + run);
        } else {
            let next = match utf8_error_len(rest) {
                Some(n) => start + n,
                None => bytes.len() as int,
            };
            assert(vs[0].byte_offset == start);
            if !(next <= start || next > bytes.len()) {
                lemma_invalid_from_steps(bytes, next);
                lemma_invalid_from_gap(bytes, next);
                lemma_invalid_from(bytes, next);
                let tail = invalid_violations_from(bytes, next);
                assert(vs == seq![vs[0]] + tail);
                if tail.len() > 0 {
                    assert(after_sequence(bytes, vs[0], vs[1]));
                    assert forall|i: int| 0 <= i < vs.len() - 1 implies after_sequence(
                        bytes,
                        #[trigger] vs[i],
                        vs[i + 1],
                    ) by {
                        if i > 0 {
                            assert(vs[i] == tail[i - 1] && vs[i + 1] == tail[i]);
                        }
                    }
                    assert(vs.last() == tail.last());
                } else {
                    assert(vs.last() == vs[0]);
                    if utf8_error_len(rest) is None {
                        assert(sequence_len_at(bytes, start) is None);
                    }
                }
            } else {
                assert(vs == seq![vs[0]]);
                assert(vs.last() == vs[0]);
                assert(sequence_len_at(bytes, start) is None);
            }
        }
    }
}

/// `next` lies past the sequence of `v`, with only valid bytes between; and the
/// input does not end inside the sequence of `v`.
pub open spec fn after_sequence(bytes: Seq<u8>, v: Violation, next: Violation) -> bool {
    match sequence_len_at(bytes, v.byte_offset as int) {
        Some(n) => next.byte_offset >= v.byte_offset + n && valid_utf8(
            bytes.subrange(v.byte_offset + n, next.byte_offset as int),
        ),
        None => utf8_error_len(bytes.skip(v.byte_offset as int)) is Some,
    }
}

/// The bytes past the sequence of the last finding are valid.
pub open spec fn after_last_sequence(bytes: Seq<u8>, v: Violation) -> bool {
    match sequence_len_at(bytes, v.byte_offset as int) {
        Some(n) => valid_utf8(bytes.skip(v.byte_offset + n)),
        None => true,
    }
}

// ---------------------------------------------------------------------------
// The text findings.
// ---------------------------------------------------------------------------
/// The findings for the first `m` characters are sorted, lie at or before the
/// offset of character `m - 1`, and none is an invalid UTF-8 finding.
proof fn lemma_text_upto(text: Seq<char>, m: int)
    requires
        0 <= m <= text.len(),
        encode_utf8(text).len() <= usize::MAX,
    ensures
        sorted_by_offset(text_violations_upto(text, m)),
        forall|i: int|
            0 <= i < text_violations_upto(text, m).len() ==> (#[trigger] text_violations_upto(
                text,
                m,
            )[i]).byte_offset <= byte_offset_of(text, m - 1) && text_violations_upto(
                text,
                m,
            )[i].kind != ViolationKind::InvalidUtf8,
    decreases m,
{
    if m > 0 {
        lemma_text_upto(text, m - 1);
        let prev = text_violations_upto(text, m - 1);
        let here = char_violations(text, m - 1);
        let all = text_violations_upto(text, m);
        assert(text.take(text.len() as int) == text);
        crate::inspect::lemma_byte_offset_mono(text, m - 1, text.len() as int);
        if m >= 2 {
            crate::inspect::lemma_byte_offset_mono(text, m - 2, m - 1);
        }
        let at = byte_offset_of(text, m - 1);
        assert forall|i: int| 0 <= i < here.len() implies (#[trigger] here[i]).byte_offset
            == at && here[i].kind != ViolationKind::InvalidUtf8 by {}
        assert forall|i: int| 0 <= i < all.len() implies (#[trigger] all[i]).byte_offset
            <= byte_offset_of(text, m - 1) && all[i].kind != ViolationKind::InvalidUtf8 by {
            if i < prev.len() {
                assert(all[i] == prev[i]);
            } else {
                assert(all[i] == here[i - prev.len()]);
            }
        }
        assert forall|i: int, j: int| 0 <= i <= j < all.len() implies all[i].byte_offset
            <= all[j].byte_offset by {
            if j < prev.len() {
                assert(all[i] == prev[i] && all[j] == prev[j]);
            } else if i < prev.len() {
                assert(all[i] == prev[i] && all[j] == here[j - prev.len()]);
            } else {
                assert(all[i] == here[i - prev.len()] && all[j] == here[j - prev.len()]);
            }
        }
    }
}

/// Each character's own findings appear among the findings for a longer prefix.
proof fn lemma_text_upto_has_char(text: Seq<char>, m: int, j: int, x: Violation)
    requires
        0 <= j < m <= text.len(),
        char_violations(text, j).contains(x),
    ensures
        text_violations_upto(text, m).contains(x),
    decreases m,
{
    let prev = text_violations_upto(text, m - 1);
    let here = char_violations(text, m - 1);
    let all = text_violations_upto(text, m);
    if j == m - 1 {
        let k = choose|k: int| 0 <= k < here.len() && here[k] == x;
        assert(all[prev.len() + k] == x);
    } else {
        lemma_text_upto_has_char(text, m - 1, j, x);
        let k = choose|k: int| 0 <= k < prev.len() && prev[k] == x;
        assert(all[k] == x);
    }
}

/// A formula finding among the first `m` characters' findings comes from the
/// first visible character, when that one is a formula trigger.
proof fn lemma_text_upto_formula(text: Seq<char>, m: int)
    requires
        0 <= m <= text.len(),
    ensures
        has_kind(text_violations_upto(text, m), ViolationKind::FormulaInjection) <==> exists|j: int|
            0 <= j < m && #[trigger] is_first_visible(text, j) && formula_trigger(text[j]),
    decreases m,
{
    if m > 0 {
        lemma_text_upto_formula(text, m - 1);
        let prev = text_violations_upto(text, m - 1);
        let here = char_violations(text, m - 1);
        let all = text_violations_upto(text, m);
        let f = ViolationKind::FormulaInjection;
        if has_kind(all, f) {
            let i = choose|i: int| 0 <= i < all.len() && #[trigger] all[i].kind == f;
            if i < prev.len() {
                assert(prev[i] == all[i]);
            } else {
                assert(here[i - prev.len()] == all[i]);
                assert(is_first_visible(text, m - 1) && formula_trigger(text[m - 1]));
            }
        }
        if exists|j: int| 0 <= j < m && #[trigger] is_first_visible(text, j) && formula_trigger(
            text[j],
        ) {
            let j = choose|j: int|
                0 <= j < m && #[trigger] is_first_visible(text, j) && formula_trigger(text[j]);
            if j < m - 1 {
                let i = choose|i: int| 0 <= i < prev.len() && #[trigger] prev[i].kind == f;
                assert(all[i] == prev[i]);
            } else {
                assert(here[0].kind == f);
                assert(all[prev.len() as int] == here[0]);
            }
        }
    }
}

// ---------------------------------------------------------------------------
// The laws.
// ---------------------------------------------------------------------------
/// `inspect` reports its findings in nondecreasing order of byte offset.
pub proof fn inspect_sorted_by_offset(raw: Option<Seq<u8>>, text: Seq<char>)
    requires
        raw matches Some(bytes) ==> bytes.len() <= usize::MAX,
        encode_utf8(text).len() <= usize::MAX,
    ensures
        sorted_by_offset(inspect_violations(raw, text)),
{
    match raw {
        Some(bytes) => lemma_invalid_from(bytes, 0),
        None => {},
    }
    lemma_text_upto(text, text.len() as int);
    lemma_merge_sorted(invalid_violations(raw), text_violations(text));
}

/// `inspect` reports a formula lead-in exactly when the first character that is
/// neither white space nor a format character is `=`, `+`, `-` or `@`.
pub proof fn inspect_formula_iff_visible_lead_in(raw: Option<Seq<u8>>, text: Seq<char>)
    requires
        raw matches Some(bytes) ==> bytes.len() <= usize::MAX,
    ensures
        has_kind(inspect_violations(raw, text), ViolationKind::FormulaInjection) <==> exists|j: int|
            #[trigger] is_first_visible(text, j) && formula_trigger(text[j]),
{
    let a = invalid_violations(raw);
    let b = text_violations(text);
    let m = inspect_violations(raw, text);
    let f = ViolationKind::FormulaInjection;
    match raw {
        Some(bytes) => lemma_invalid_from(bytes, 0),
        None => {},
    }
    lemma_merge_contains(a, b);
    lemma_text_upto_formula(text, text.len() as int);
    if has_kind(m, f) {
        let i = choose|i: int| 0 <= i < m.len() && #[trigger] m[i].kind == f;
        assert(m.contains(m[i]));
        if a.contains(m[i]) {
            let k = choose|k: int| 0 <= k < a.len() && a[k] == m[i];
            assert(a[k].kind == ViolationKind::InvalidUtf8);
        } else {
            let k = choose|k: int| 0 <= k < b.len() && b[k] == m[i];
            assert(b[k].kind == f);
        }
    }
    if has_kind(b, f) {
        let k = choose|k: int| 0 <= k < b.len() && #[trigger] b[k].kind == f;
        assert(b.contains(b[k]));
        assert(m.contains(b[k]));
        let i = choose|i: int| 0 <= i < m.len() && m[i] == b[k];
        assert(m[i].kind == f);
    }
}

/// Text input never yields an invalid UTF-8 finding.
pub proof fn text_input_has_no_invalid_utf8(text: Seq<char>)
    requires
        encode_utf8(text).len() <= usize::MAX,
    ensures
        !has_kind(inspect_violations(None, text), ViolationKind::InvalidUtf8),
{
    lemma_text_upto(text, text.len() as int);
    assert(inspect_violations(None, text) == text_violations(text));
}

/// Every control and bidi character of the text yields a finding that blocks a
/// JSON string and a display.
proof fn lemma_unsafe_char_is_reported(raw: Option<Seq<u8>>, text: Seq<char>, j: int)
    requires
        0 <= j < text.len(),
        display_unsafe_char(text[j]),
    ensures
        jsonl_blocked(inspect_violations(raw, text)),
        !(text[j] == '\n' || text[j] == '\r') ==> csv_blocked(inspect_violations(raw, text)),
{
    let here = char_violations(text, j);
    let x = here[here.len() - 1];
    assert(here.contains(x));
    assert(x.kind == ViolationKind::BidiOverride || x.kind == ViolationKind::ControlChar);
    assert(x.char == Some(text[j]));
    lemma_text_upto_has_char(text, text.len() as int, j, x);
    lemma_merge_contains(invalid_violations(raw), text_violations(text));
    let m = inspect_violations(raw, text);
    assert(m.contains(x));
    let i = choose|i: int| 0 <= i < m.len() && m[i] == x;
    assert(blocks_jsonl(m[i]));
    if !(text[j] == '\n' || text[j] == '\r') {
        assert(blocks_csv(m[i]));
    }
}

/// A formula lead-in at the very first character is reported.
proof fn lemma_leading_trigger_is_reported(raw: Option<Seq<u8>>, text: Seq<char>)
    requires
        text.len() > 0,
        formula_trigger(text[0]),
    ensures
        csv_blocked(inspect_violations(raw, text)),
        inspect_violations(raw, text).len() > 0,
{
    assert(is_first_visible(text, 0));
    let here = char_violations(text, 0);
    let x = here[0];
    assert(x.kind == ViolationKind::FormulaInjection);
    assert(here.contains(x));
    lemma_text_upto_has_char(text, text.len() as int, 0, x);
    lemma_merge_contains(invalid_violations(raw), text_violations(text));
    let m = inspect_violations(raw, text);
    assert(m.contains(x));
    let i = choose|i: int| 0 <= i < m.len() && m[i] == x;
    assert(blocks_csv(m[i]));
}

/// When `inspect` finds the input display-safe, `display_safe` returns the text
/// unchanged.
pub proof fn display_verdict_means_unchanged(raw: Option<Seq<u8>>, text: Seq<char>)
    requires
        !jsonl_blocked(inspect_violations(raw, text)),
    ensures
        crate::text::display_text(text) == text,
{
    assert forall|j: int| 0 <= j < text.len() implies !display_unsafe_char(#[trigger] text[j]) by {
        if display_unsafe_char(text[j]) {
            lemma_unsafe_char_is_reported(raw, text, j);
        }
    }
    crate::laws::display_safe_keeps_clean_text(text);
}

/// Keeping every character of text without controls and bidi characters.
proof fn lemma_tsv_filter_keeps_clean(s: Seq<char>)
    requires
        forall|i: int| 0 <= i < s.len() ==> !display_unsafe_char(#[trigger] s[i]),
    ensures
        s.filter_map(crate::text::tsv_map()) == s,
    decreases s.len(),
{
    if s.len() > 0 {
        lemma_tsv_filter_keeps_clean(s.drop_last());
        assert(s.drop_last().push(s.last()) == s);
        assert(!display_unsafe_char(s[s.len() - 1]));
    }
}

/// When `inspect` finds the input clean (TSV-safe), `tsv_safe` returns the text
/// unchanged.
pub proof fn clean_verdict_means_tsv_unchanged(raw: Option<Seq<u8>>, text: Seq<char>)
    requires
        inspect_violations(raw, text).len() == 0,
    ensures
        crate::text::tsv_text(text) == text,
{
    assert forall|j: int| 0 <= j < text.len() implies !display_unsafe_char(#[trigger] text[j]) by {
        if display_unsafe_char(text[j]) {
            lemma_unsafe_char_is_reported(raw, text, j);
        }
    }
    if text.len() > 0 && formula_trigger(text[0]) {
        lemma_leading_trigger_is_reported(raw, text);
    }
    lemma_tsv_filter_keeps_clean(text);
}

proof fn lemma_csv_filter_keeps_all(s: Seq<char>)
    requires
        forall|i: int| 0 <= i < s.len() ==> crate::text::csv_keeps(#[trigger] s[i]),
    ensures
        s.filter(crate::text::csv_keep_fn()) == s,
    decreases s.len(),
{
    reveal(Seq::filter);
    if s.len() > 0 {
        lemma_csv_filter_keeps_all(s.drop_last());
        assert(s.drop_last().push(s.last()) == s);
        assert(crate::text::csv_keeps(s[s.len() - 1]));
    }
}

/// When `inspect` finds the input CSV-safe, `csv_field` changes nothing but the
/// RFC 4180 quoting.
pub proof fn csv_verdict_means_only_quoting(raw: Option<Seq<u8>>, text: Seq<char>)
    requires
        !csv_blocked(inspect_violations(raw, text)),
    ensures
        crate::text::csv_text(text) == crate::text::rfc4180_field(text),
{
    assert forall|j: int| 0 <= j < text.len() implies crate::text::csv_keeps(#[trigger] text[j]) by {
        if display_unsafe_char(text[j]) && !(text[j] == '\n' || text[j] == '\r') {
            lemma_unsafe_char_is_reported(raw, text, j);
        }
    }
    if text.len() > 0 && formula_trigger(text[0]) {
        lemma_leading_trigger_is_reported(raw, text);
    }
    lemma_csv_filter_keeps_all(text);
}

/// The TSV verdict is the strictest: a clean report is also CSV-, JSONL- and
/// display-safe.
pub proof fn tsv_verdict_is_strictest(vs: Seq<Violation>)
    requires
        vs.len() == 0,
    ensures
        !csv_blocked(vs),
        !jsonl_blocked(vs),
{
}

/// Byte input that is valid UTF-8 reads as exactly the text it encodes, and is
/// not lossy: sanitizing the UTF-8 bytes of a text gives what sanitizing the text
/// gives.
pub proof fn text_bytes_read_as_the_text(s: Seq<char>)
    ensures
        valid_utf8(encode_utf8(s)),
        bytes_text(encode_utf8(s)) == s,
{
    vstd::utf8::encode_utf8_valid_utf8(s);
    vstd::utf8::encode_utf8_decode_utf8(s);
}

/// For byte input, `inspect` reports an invalid UTF-8 sequence exactly when the
/// bytes are not valid UTF-8, that is exactly when reading them is lossy.
pub proof fn byte_input_invalid_iff_lossy(bytes: Seq<u8>, text: Seq<char>)
    requires
        bytes.len() <= usize::MAX,
        encode_utf8(text).len() <= usize::MAX,
    ensures
        has_kind(inspect_violations(Some(bytes), text), ViolationKind::InvalidUtf8) <==> !valid_utf8(
            bytes,
        ),
{
    let a = invalid_violations_from(bytes, 0);
    let b = text_violations(text);
    let m = inspect_violations(Some(bytes), text);
    let k = ViolationKind::InvalidUtf8;
    lemma_invalid_from(bytes, 0);
    lemma_text_upto(text, text.len() as int);
    lemma_merge_contains(a, b);
    assert(bytes.skip(0) == bytes);
    if has_kind(m, k) {
        let i = choose|i: int| 0 <= i < m.len() && #[trigger] m[i].kind == k;
        assert(m.contains(m[i]));
        if !a.contains(m[i]) {
            let j = choose|j: int| 0 <= j < b.len() && b[j] == m[i];
            assert(b[j].kind != k);
        }
    }
    if !valid_utf8(bytes) {
        lemma_invalid_from_gap(bytes, 0);
        assert(a.len() > 0);
        assert(a[0].kind == k);
        assert(a.contains(a[0]));
        assert(m.contains(a[0]));
        let i = choose|i: int| 0 <= i < m.len() && m[i] == a[0];
        assert(m[i].kind == k);
    }
}

// ---------------------------------------------------------------------------
// Filtering findings by kind.
// ---------------------------------------------------------------------------
/// Findings of kind `k`, as a function value.
pub open spec fn kind_is(k: ViolationKind) -> spec_fn(Violation) -> bool {
    |v: Violation| v.kind == k
}

proof fn lemma_filter_one(x: Violation, p: spec_fn(Violation) -> bool)
    ensures
        seq![x].filter(p) == if p(x) {
            seq![x]
        } else {
            Seq::<Violation>::empty()
        },
{
    Seq::<Violation>::empty().lemma_filter_prepend(x, p);
    assert(seq![x] + Seq::<Violation>::empty() == seq![x]);
    reveal(Seq::filter);
}

proof fn lemma_filter_none(s: Seq<Violation>, p: spec_fn(Violation) -> bool)
    requires
        forall|i: int| 0 <= i < s.len() ==> !p(#[trigger] s[i]),
    ensures
        s.filter(p) == Seq::<Violation>::empty(),
    decreases s.len(),
{
    reveal(Seq::filter);
    if s.len() > 0 {
        lemma_filter_none(s.drop_last(), p);
    }
}

proof fn lemma_filter_all(s: Seq<Violation>, p: spec_fn(Violation) -> bool)
    requires
        forall|i: int| 0 <= i < s.len() ==> p(#[trigger] s[i]),
    ensures
        s.filter(p) == s,
    decreases s.len(),
{
    reveal(Seq::filter);
    if s.len() > 0 {
        lemma_filter_all(s.drop_last(), p);
        assert(s.drop_last().push(s.last()) == s);
    }
}

/// Filtering a merge by a predicate that one side never meets gives the other
/// side filtered.
proof fn lemma_merge_filter(a: Seq<Violation>, b: Seq<Violation>, p: spec_fn(Violation) -> bool)
    ensures
        (forall|i: int| 0 <= i < b.len() ==> !p(#[trigger] b[i])) ==> merge_by_offset(a, b).filter(p)
            == a.filter(p),
        (forall|i: int| 0 <= i < a.len() ==> !p(#[trigger] a[i])) ==> merge_by_offset(a, b).filter(p)
            == b.filter(p),
    decreases a.len() + b.len(),
{
    if a.len() == 0 {
        assert(merge_by_offset(a, b) == b);
        lemma_filter_none(a, p);
        if forall|i: int| 0 <= i < b.len() ==> !p(#[trigger] b[i]) {
            lemma_filter_none(b, p);
        }
    } else if b.len() == 0 {
        assert(merge_by_offset(a, b) == a);
        lemma_filter_none(b, p);
        if forall|i: int| 0 <= i < a.len() ==> !p(#[trigger] a[i]) {
            lemma_filter_none(a, p);
        }
    } else if a[0].byte_offset <= b[0].byte_offset {
        let a2 = a.drop_first();
        lemma_merge_filter(a2, b, p);
        assert(a == seq![a[0]] + a2);
        a2.lemma_filter_prepend(a[0], p);
        merge_by_offset(a2, b).lemma_filter_prepend(a[0], p);
        if forall|i: int| 0 <= i < a.len() ==> !p(#[trigger] a[i]) {
            assert(!p(a[0]));
            assert forall|i: int| 0 <= i < a2.len() implies !p(#[trigger] a2[i]) by {
                assert(a2[i] == a[i + 1]);
            }
        }
    } else {
        let b2 = b.drop_first();
        lemma_merge_filter(a, b2, p);
        assert(b == seq![b[0]] + b2);
        b2.lemma_filter_prepend(b[0], p);
        merge_by_offset(a, b2).lemma_filter_prepend(b[0], p);
        if forall|i: int| 0 <= i < b.len() ==> !p(#[trigger] b[i]) {
            assert(!p(b[0]));
            assert forall|i: int| 0 <= i < b2.len() implies !p(#[trigger] b2[i]) by {
                assert(b2[i] == b[i + 1]);
            }
        }
    }
}

// ---------------------------------------------------------------------------
// Invalid UTF-8 findings.
// ---------------------------------------------------------------------------
/// For byte input the invalid UTF-8 findings match the invalid sequences one to
/// one: none exactly when the bytes are valid UTF-8; each lies where an invalid
/// sequence starts, the bytes before the first are valid, and after each the next
/// lies past the whole sequence (its length as `from_utf8` reports it), with only
/// valid bytes between; when the input ends inside a sequence, that finding is
/// the last; past the last sequence the bytes are valid.
pub proof fn invalid_utf8_findings_match_sequences(bytes: Seq<u8>)
    requires
        bytes.len() <= usize::MAX,
    ensures
        ({
            let vs = invalid_violations(Some(bytes));
            &&& sorted_by_offset(vs)
            &&& vs.len() == 0 <==> valid_utf8(bytes)
            &&& forall|i: int| 0 <= i < vs.len() ==> starts_invalid_sequence(bytes, #[trigger] vs[i])
            &&& vs.len() > 0 ==> valid_utf8(bytes.take(vs[0].byte_offset as int))
            &&& forall|i: int| 0 <= i < vs.len() - 1 ==> after_sequence(bytes, #[trigger] vs[i], vs[i + 1])
            &&& vs.len() > 0 ==> after_last_sequence(bytes, vs.last())
        }),
{
    lemma_invalid_from(bytes, 0);
    lemma_invalid_from_gap(bytes, 0);
    lemma_invalid_from_steps(bytes, 0);
    assert(bytes.skip(0) == bytes);
    let vs = invalid_violations(Some(bytes));
    if vs.len() > 0 {
        assert(bytes.subrange(0, vs[0].byte_offset as int) == bytes.take(vs[0].byte_offset as int));
    }
}

/// The invalid UTF-8 findings that `inspect` reports are exactly those of the
/// bytes, in order.
pub proof fn inspect_invalid_findings_are_the_sequences(bytes: Seq<u8>, text: Seq<char>)
    requires
        bytes.len() <= usize::MAX,
        encode_utf8(text).len() <= usize::MAX,
    ensures
        inspect_violations(Some(bytes), text).filter(kind_is(ViolationKind::InvalidUtf8))
            == invalid_violations(Some(bytes)),
{
    let a = invalid_violations(Some(bytes));
    let b = text_violations(text);
    let p = kind_is(ViolationKind::InvalidUtf8);
    lemma_invalid_from(bytes, 0);
    lemma_text_upto(text, text.len() as int);
    lemma_merge_filter(a, b, p);
    lemma_filter_all(a, p);
}

// ---------------------------------------------------------------------------
// Formula findings.
// ---------------------------------------------------------------------------
proof fn lemma_first_visible_unique(text: Seq<char>, j: int, k: int)
    requires
        is_first_visible(text, j),
        is_first_visible(text, k),
    ensures
        j == k,
{
    if j < k {
        assert(crate::chars::lead_in_filler(text[j]));
    } else if k < j {
        assert(crate::chars::lead_in_filler(text[k]));
    }
}

/// The formula finding for character `j`.
pub open spec fn formula_finding(text: Seq<char>, j: int) -> Violation {
    Violation {
        kind: ViolationKind::FormulaInjection,
        byte_offset: byte_offset_of(text, j) as usize,
        char: Some(text[j]),
    }
}

proof fn lemma_char_violations_formula(text: Seq<char>, j: int)
    requires
        0 <= j < text.len(),
    ensures
        char_violations(text, j).filter(kind_is(ViolationKind::FormulaInjection)) == if is_first_visible(
            text,
            j,
        ) && formula_trigger(text[j]) {
            seq![formula_finding(text, j)]
        } else {
            Seq::<Violation>::empty()
        },
{
    let p = kind_is(ViolationKind::FormulaInjection);
    let cv = char_violations(text, j);
    let c = text[j];
    let at = byte_offset_of(text, j) as usize;
    let formula = if is_first_visible(text, j) && formula_trigger(c) {
        seq![Violation { kind: ViolationKind::FormulaInjection, byte_offset: at, char: Some(c) }]
    } else {
        Seq::<Violation>::empty()
    };
    let class = if crate::chars::bidi_char(c) {
        seq![Violation { kind: ViolationKind::BidiOverride, byte_offset: at, char: Some(c) }]
    } else if crate::chars::control_char(c) {
        seq![Violation { kind: ViolationKind::ControlChar, byte_offset: at, char: Some(c) }]
    } else {
        Seq::<Violation>::empty()
    };
    assert(cv == formula + class);
    Seq::filter_distributes_over_add(formula, class, p);
    lemma_filter_none(class, p);
    if formula.len() > 0 {
        lemma_filter_one(formula[0], p);
        assert(formula == seq![formula[0]]);
    } else {
        lemma_filter_none(formula, p);
    }
}

proof fn lemma_upto_formula(text: Seq<char>, m: int)
    requires
        0 <= m <= text.len(),
    ensures
        forall|j: int| #[trigger]
            is_first_visible(text, j) ==> text_violations_upto(text, m).filter(
                kind_is(ViolationKind::FormulaInjection),
            ) == if j < m && formula_trigger(text[j]) {
                seq![formula_finding(text, j)]
            } else {
                Seq::<Violation>::empty()
            },
        (forall|j: int| !is_first_visible(text, j)) ==> text_violations_upto(text, m).filter(
            kind_is(ViolationKind::FormulaInjection),
        ) == Seq::<Violation>::empty(),
    decreases m,
{
    let p = kind_is(ViolationKind::FormulaInjection);
    if m <= 0 {
        lemma_filter_none(Seq::<Violation>::empty(), p);
    } else {
        lemma_upto_formula(text, m - 1);
        lemma_char_violations_formula(text, m - 1);
        let prev = text_violations_upto(text, m - 1);
        let here = char_violations(text, m - 1);
        Seq::filter_distributes_over_add(prev, here, p);
        assert forall|j: int| #[trigger]
            is_first_visible(text, j) implies text_violations_upto(text, m).filter(p) == if j < m
            && formula_trigger(text[j]) {
            seq![formula_finding(text, j)]
        } else {
            Seq::<Violation>::empty()
        } by {
            if is_first_visible(text, m - 1) {
                lemma_first_visible_unique(text, j, m - 1);
            }
        }
    }
}

/// `inspect` reports at most one formula finding: at the first visible character
/// (neither white space nor a format character), with its byte offset and the
/// character, when that character is `=`, `+`, `-` or `@`; none otherwise.
pub proof fn inspect_formula_finding_is_the_lead_in(raw: Option<Seq<u8>>, text: Seq<char>)
    requires
        raw matches Some(bytes) ==> bytes.len() <= usize::MAX,
    ensures
        forall|j: int| #[trigger]
            is_first_visible(text, j) ==> inspect_violations(raw, text).filter(
                kind_is(ViolationKind::FormulaInjection),
            ) == if formula_trigger(text[j]) {
                seq![
                    (Violation {
                        kind: ViolationKind::FormulaInjection,
                        byte_offset: byte_offset_of(text, j) as usize,
                        char: Some(text[j]),
                    }),
                ]
            } else {
                Seq::<Violation>::empty()
            },
        (forall|j: int| !is_first_visible(text, j)) ==> inspect_violations(raw, text).filter(
            kind_is(ViolationKind::FormulaInjection),
        ) == Seq::<Violation>::empty(),
{
    let a = invalid_violations(raw);
    let p = kind_is(ViolationKind::FormulaInjection);
    match raw {
        Some(bytes) => lemma_invalid_from(bytes, 0),
        None => {},
    }
    assert forall|i: int| 0 <= i < a.len() implies !p(#[trigger] a[i]) by {}
    lemma_merge_filter(a, text_violations(text), p);
    lemma_upto_formula(text, text.len() as int);
}

// ---------------------------------------------------------------------------
// Control and bidi findings.
// ---------------------------------------------------------------------------
/// Every text finding belongs to one character.
proof fn lemma_upto_from_char(text: Seq<char>, m: int, x: Violation)
    requires
        0 <= m <= text.len(),
        text_violations_upto(text, m).contains(x),
    ensures
        exists|j: int| 0 <= j < m && #[trigger] char_violations(text, j).contains(x),
    decreases m,
{
    let prev = text_violations_upto(text, m - 1);
    let here = char_violations(text, m - 1);
    let all = text_violations_upto(text, m);
    let k = choose|k: int| 0 <= k < all.len() && all[k] == x;
    if k < prev.len() {
        assert(prev[k] == x);
        lemma_upto_from_char(text, m - 1, x);
    } else {
        assert(here[k - prev.len()] == x);
        assert(char_violations(text, m - 1).contains(x));
    }
}

/// `inspect` reports every listed control character and every listed bidi
/// character at its byte offset, and reports no other character as either.
pub proof fn inspect_reports_exactly_the_listed_chars(raw: Option<Seq<u8>>, text: Seq<char>)
    requires
        raw matches Some(bytes) ==> bytes.len() <= usize::MAX,
    ensures
        forall|j: int|
            0 <= j < text.len() && crate::class_laws::listed_bidi(#[trigger] text[j])
                ==> inspect_violations(raw, text).contains(
                (Violation {
                    kind: ViolationKind::BidiOverride,
                    byte_offset: byte_offset_of(text, j) as usize,
                    char: Some(text[j]),
                }),
            ),
        forall|j: int|
            0 <= j < text.len() && crate::class_laws::listed_control(#[trigger] text[j])
                ==> inspect_violations(raw, text).contains(
                (Violation {
                    kind: ViolationKind::ControlChar,
                    byte_offset: byte_offset_of(text, j) as usize,
                    char: Some(text[j]),
                }),
            ),
        forall|i: int|
            0 <= i < inspect_violations(raw, text).len() && (#[trigger] inspect_violations(
                raw,
                text,
            )[i]).kind == ViolationKind::BidiOverride ==> inspect_violations(raw, text)[i].char is Some
                && crate::class_laws::listed_bidi(inspect_violations(raw, text)[i].char->0),
        forall|i: int|
            0 <= i < inspect_violations(raw, text).len() && (#[trigger] inspect_violations(
                raw,
                text,
            )[i]).kind == ViolationKind::ControlChar ==> inspect_violations(raw, text)[i].char is Some
                && crate::class_laws::listed_control(inspect_violations(raw, text)[i].char->0),
{
    let a = invalid_violations(raw);
    let b = text_violations(text);
    let m = inspect_violations(raw, text);
    match raw {
        Some(bytes) => lemma_invalid_from(bytes, 0),
        None => {},
    }
    lemma_merge_contains(a, b);
    assert forall|j: int|
        0 <= j < text.len() && crate::class_laws::listed_bidi(#[trigger] text[j]) implies m.contains(
        (Violation {
            kind: ViolationKind::BidiOverride,
            byte_offset: byte_offset_of(text, j) as usize,
            char: Some(text[j]),
        }),
    ) by {
        let here = char_violations(text, j);
        let x = here[here.len() - 1];
        assert(here.contains(x));
        lemma_text_upto_has_char(text, text.len() as int, j, x);
    }
    assert forall|j: int|
        0 <= j < text.len() && crate::class_laws::listed_control(#[trigger] text[j]) implies m.contains(
        (Violation {
            kind: ViolationKind::ControlChar,
            byte_offset: byte_offset_of(text, j) as usize,
            char: Some(text[j]),
        }),
    ) by {
        let here = char_violations(text, j);
        let x = here[here.len() - 1];
        assert(here.contains(x));
        lemma_text_upto_has_char(text, text.len() as int, j, x);
    }
    assert forall|i: int|
        0 <= i < m.len() && ((#[trigger] m[i]).kind == ViolationKind::BidiOverride || m[i].kind
            == ViolationKind::ControlChar) implies (m[i].kind == ViolationKind::BidiOverride
        ==> m[i].char is Some && crate::class_laws::listed_bidi(m[i].char->0)) && (m[i].kind
        == ViolationKind::ControlChar ==> m[i].char is Some && crate::class_laws::listed_control(
        m[i].char->0,
    )) by {
        assert(m.contains(m[i]));
        if a.contains(m[i]) {
            let k = choose|k: int| 0 <= k < a.len() && a[k] == m[i];
            assert(a[k].kind == ViolationKind::InvalidUtf8);
        } else {
            lemma_upto_from_char(text, text.len() as int, m[i]);
            let j = choose|j: int|
                0 <= j < text.len() && #[trigger] char_violations(text, j).contains(m[i]);
            let here = char_violations(text, j);
            let k = choose|k: int| 0 <= k < here.len() && here[k] == m[i];
        }
    }
}

} // verus!
