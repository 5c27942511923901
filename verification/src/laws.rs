use vstd::prelude::*;

use crate::chars::{display_unsafe_char, formula_trigger, tsv_separator};
use crate::text::{
    capped_text, csv_guarded, csv_keep_fn, csv_keeps, csv_needs_quotes, csv_special, csv_text,
    display_keep_fn, display_text, double_quotes, formula_guarded, tsv_char, tsv_map, tsv_text,
};

verus! {

broadcast use vstd::seq_lib::group_seq_properties;

// ---------------------------------------------------------------------------
// Helpers on filters.
// ---------------------------------------------------------------------------
/// Filtering by a predicate that every element meets changes nothing.
proof fn lemma_filter_keeps_all(s: Seq<char>, p: spec_fn(char) -> bool)
    requires
        forall|i: int| 0 <= i < s.len() ==> p(#[trigger] s[i]),
    ensures
        s.filter(p) == s,
    decreases s.len(),
{
    reveal(Seq::filter);
    if s.len() > 0 {
        lemma_filter_keeps_all(s.drop_last(), p);
        assert(s.drop_last().push(s.last()) == s);
    }
}

/// Every element of a filter meets the predicate.
proof fn lemma_filter_all_meet(s: Seq<char>, p: spec_fn(char) -> bool)
    ensures
        forall|i: int| 0 <= i < s.filter(p).len() ==> p(#[trigger] s.filter(p)[i]),
{
    assert forall|i: int| 0 <= i < s.filter(p).len() implies p(#[trigger] s.filter(p)[i]) by {
        s.lemma_filter_pred(p, i);
    }
}

/// `formula_guarded` only puts an apostrophe in front.
proof fn lemma_formula_guarded_chars(s: Seq<char>)
    ensures
        forall|i: int|
            0 <= i < formula_guarded(s).len() ==> #[trigger] formula_guarded(s)[i] == '\''
                || s.contains(formula_guarded(s)[i]),
{
    let g = formula_guarded(s);
    assert forall|i: int| 0 <= i < g.len() implies #[trigger] g[i] == '\'' || s.contains(g[i]) by {
        if s.len() > 0 && formula_trigger(s[0]) {
            if i > 0 {
                assert(g[i] == s[i - 1]);
            }
        } else {
            assert(g[i] == s[i]);
        }
    }
}

// ---------------------------------------------------------------------------
// Display.
// ---------------------------------------------------------------------------
/// `display_safe` leaves no control and no bidi character.
pub proof fn display_safe_output_is_clean(s: Seq<char>)
    ensures
        forall|i: int|
            0 <= i < display_text(s).len() ==> !display_unsafe_char(#[trigger] display_text(s)[i]),
{
    lemma_filter_all_meet(s, display_keep_fn());
}

/// `display_safe` is idempotent: sanitizing its output again changes nothing.
pub proof fn display_safe_idempotent(s: Seq<char>)
    ensures
        display_text(display_text(s)) == display_text(s),
{
    lemma_filter_all_meet(s, display_keep_fn());
    lemma_filter_keeps_all(display_text(s), display_keep_fn());
}

/// `display_safe` changes nothing in text without controls and bidi characters.
pub proof fn display_safe_keeps_clean_text(s: Seq<char>)
    requires
        forall|i: int| 0 <= i < s.len() ==> !display_unsafe_char(#[trigger] s[i]),
    ensures
        display_text(s) == s,
{
    lemma_filter_keeps_all(s, display_keep_fn());
}

/// `cap_display` holds at most `max_chars` characters of the display-safe text
/// plus the ellipsis: all of it when it fits, else its first `max_chars`
/// characters; and no control or bidi character.
pub proof fn cap_display_bounded_and_clean(s: Seq<char>, max_chars: nat)
    ensures
        capped_text(s, max_chars).len() <= max_chars + 1,
        display_text(s).len() <= max_chars ==> capped_text(s, max_chars) == display_text(s),
        display_text(s).len() > max_chars ==> capped_text(s, max_chars).take(max_chars as int)
            == display_text(s).take(max_chars as int),
        forall|i: int|
            0 <= i < capped_text(s, max_chars).len() ==> !display_unsafe_char(
                #[trigger] capped_text(s, max_chars)[i],
            ),
{
    display_safe_output_is_clean(s);
    let safe = display_text(s);
    let out = capped_text(s, max_chars);
    assert forall|i: int| 0 <= i < out.len() implies !display_unsafe_char(#[trigger] out[i]) by {
        if safe.len() > max_chars && i < max_chars {
            assert(out[i] == safe[i]);
        }
    }
}

// ---------------------------------------------------------------------------
// TSV.
// ---------------------------------------------------------------------------
/// A TSV cell holds no TAB, CR or LF, no other control and no bidi character,
/// and does not start with a formula trigger.
pub proof fn tsv_safe_output_is_clean(s: Seq<char>)
    ensures
        forall|i: int|
            0 <= i < tsv_text(s).len() ==> !tsv_separator(#[trigger] tsv_text(s)[i])
                && !display_unsafe_char(tsv_text(s)[i]),
        tsv_text(s).len() > 0 ==> !formula_trigger(tsv_text(s)[0]),
{
    let cleaned = s.filter_map(tsv_map());
    lemma_formula_guarded_chars(cleaned);
    let out = tsv_text(s);
    assert forall|i: int| 0 <= i < out.len() implies !tsv_separator(#[trigger] out[i])
        && !display_unsafe_char(out[i]) by {
        if out[i] != '\'' {
            assert(cleaned.contains(out[i]));
            s.lemma_filter_map_contains(tsv_map(), out[i]);
            let t = choose|t: char| #[trigger] s.contains(t) && tsv_map()(t) == Some(out[i]);
            assert(tsv_char(t) == Some(out[i]));
        }
    }
}

// ---------------------------------------------------------------------------
// CSV.
// ---------------------------------------------------------------------------
/// A CSV field does not start with a formula trigger, and holds no control or
/// bidi character but CR and LF.
pub proof fn csv_field_output_is_clean(s: Seq<char>)
    ensures
        csv_text(s).len() > 0 ==> !formula_trigger(csv_text(s)[0]),
        forall|i: int|
            0 <= i < csv_text(s).len() ==> #[trigger] csv_keeps(csv_text(s)[i]),
{
    let cleaned = s.filter(csv_keep_fn());
    lemma_filter_all_meet(s, csv_keep_fn());
    lemma_formula_guarded_chars(cleaned);
    let g = csv_guarded(s);
    assert forall|i: int| 0 <= i < g.len() implies #[trigger] csv_keeps(g[i]) by {
        if g[i] != '\'' {
            assert(cleaned.contains(g[i]));
            let k = choose|k: int| 0 <= k < cleaned.len() && cleaned[k] == g[i];
            assert(csv_keep_fn()(cleaned[k]));
        }
    }
    lemma_double_quotes_keeps(g);
    let out = csv_text(s);
    assert forall|i: int| 0 <= i < out.len() implies #[trigger] csv_keeps(out[i]) by {
        if csv_needs_quotes(g) {
            if 0 < i < out.len() - 1 {
                assert(out[i] == double_quotes(g)[i - 1]);
            }
        }
    }
}

/// Doubling quotes adds nothing but quotes.
proof fn lemma_double_quotes_keeps(s: Seq<char>)
    requires
        forall|i: int| 0 <= i < s.len() ==> #[trigger] csv_keeps(s[i]),
    ensures
        forall|i: int|
            0 <= i < double_quotes(s).len() ==> #[trigger] csv_keeps(
                double_quotes(s)[i],
            ),
    decreases s.len(),
{
    if s.len() > 0 {
        lemma_double_quotes_keeps(s.drop_last());
        let d = double_quotes(s);
        let r = double_quotes(s.drop_last());
        assert forall|i: int| 0 <= i < d.len() implies #[trigger] csv_keeps(d[i]) by {
            if i < r.len() {
                assert(d[i] == r[i]);
            } else {
                assert(csv_keeps(s[s.len() - 1]));
            }
        }
    }
}

/// What an RFC 4180 reader makes of the inside of a quoted field: `""` is one `"`.
pub open spec fn undouble_quotes(s: Seq<char>) -> Seq<char>
    decreases s.len(),
{
    if s.len() == 0 {
        seq![]
    } else if s.len() >= 2 && s[0] == '"' && s[1] == '"' {
        seq!['"'] + undouble_quotes(s.skip(2))
    } else {
        seq![s[0]] + undouble_quotes(s.skip(1))
    }
}

/// What an RFC 4180 reader makes of a field: a quoted field is unquoted and its
/// doubled quotes undoubled; any other field is read as it stands.
pub open spec fn rfc4180_read(field: Seq<char>) -> Seq<char> {
    if field.len() >= 2 && field[0] == '"' && field.last() == '"' {
        undouble_quotes(field.subrange(1, field.len() - 1))
    } else {
        field
    }
}

proof fn lemma_double_quotes_add(a: Seq<char>, b: Seq<char>)
    ensures
        double_quotes(a + b) == double_quotes(a) + double_quotes(b),
    decreases b.len(),
{
    if b.len() == 0 {
        assert(a + b == a);
    } else {
        assert((a + b).drop_last() == a + b.drop_last());
        lemma_double_quotes_add(a, b.drop_last());
    }
}

proof fn lemma_undouble_double(s: Seq<char>)
    ensures
        undouble_quotes(double_quotes(s)) == s,
    decreases s.len(),
{
    if s.len() > 0 {
        let c = s[0];
        let rest = s.drop_first();
        assert(s == seq![c] + rest);
        lemma_double_quotes_add(seq![c], rest);
        assert(seq![c].drop_last() == Seq::<char>::empty());
        assert(seq![c].last() == c);
        reveal_with_fuel(double_quotes, 2);
        lemma_undouble_double(rest);
        let d = double_quotes(s);
        if c == '"' {
            assert(double_quotes(seq![c]) == seq!['"', '"']);
            assert(d.skip(2) == double_quotes(rest));
        } else {
            assert(double_quotes(seq![c]) == seq![c]);
            assert(d.skip(1) == double_quotes(rest));
        }
    }
}

/// An RFC 4180 reader reads back exactly the guarded text from a CSV field:
/// quoting and quote doubling lose nothing and add nothing.
pub proof fn csv_field_reads_back(s: Seq<char>)
    ensures
        rfc4180_read(csv_text(s)) == csv_guarded(s),
{
    let g = csv_guarded(s);
    if csv_needs_quotes(g) {
        let field = csv_text(s);
        assert(field.subrange(1, field.len() - 1) == double_quotes(g));
        lemma_undouble_double(g);
    } else {
        if g.len() >= 2 && g[0] == '"' {
            assert(csv_special(g[0]));
        }
    }
}

} // verus!
