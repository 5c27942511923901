use vstd::prelude::*;

use crate::text::{
    csv_keep_fn, csv_text, display_keep_fn, display_text, formula_guarded, json_escape_char,
    jsonl_text, rfc4180_field, tsv_map, tsv_text,
};

verus! {

broadcast use vstd::seq_lib::group_seq_properties;

// ---------------------------------------------------------------------------
// The character sets that the documentation lists, by code point.
// ---------------------------------------------------------------------------
/// U+0000..=U+001F, U+007F and U+0080..=U+009F.
pub open spec fn listed_control(c: char) -> bool {
    c <= '\u{001F}' || c == '\u{007F}' || ('\u{0080}' <= c && c <= '\u{009F}')
}

/// U+200E, U+200F, U+202A..=U+202E, U+2066..=U+2069 and U+061C.
pub open spec fn listed_bidi(c: char) -> bool {
    c == '\u{200E}' || c == '\u{200F}' || ('\u{202A}' <= c && c <= '\u{202E}') || ('\u{2066}' <= c
        && c <= '\u{2069}') || c == '\u{061C}'
}

/// What `display_safe` keeps, by code point.
pub open spec fn listed_display_keep() -> spec_fn(char) -> bool {
    |c: char| !listed_control(c) && !listed_bidi(c)
}

/// What becomes of a character in a TSV cell, by code point.
pub open spec fn listed_tsv_map() -> spec_fn(char) -> Option<char> {
    |c: char|
        if c == '\t' || c == '\n' || c == '\r' {
            Some(' ')
        } else if listed_control(c) || listed_bidi(c) {
            None
        } else {
            Some(c)
        }
}

/// What `csv_field` keeps, by code point.
pub open spec fn listed_csv_keep() -> spec_fn(char) -> bool {
    |c: char| c == '\n' || c == '\r' || (!listed_control(c) && !listed_bidi(c))
}

// ---------------------------------------------------------------------------
// The laws.
// ---------------------------------------------------------------------------
/// `display_safe` removes exactly the listed controls and bidi characters and
/// keeps every other character, in order.
pub proof fn display_safe_removes_exactly_the_listed_chars(s: Seq<char>)
    ensures
        display_text(s) == s.filter(listed_display_keep()),
        (forall|i: int| 0 <= i < s.len() ==> !listed_control(#[trigger] s[i]) && !listed_bidi(s[i]))
            ==> display_text(s) == s,
{
    assert(display_keep_fn() =~= listed_display_keep());
    if forall|i: int| 0 <= i < s.len() ==> !listed_control(#[trigger] s[i]) && !listed_bidi(s[i]) {
        crate::laws::display_safe_keeps_clean_text(s);
    }
}

/// `tsv_safe` turns TAB, LF and CR into a space, removes exactly the other
/// listed controls and bidi characters, keeps everything else, then guards a
/// formula lead-in; no character below U+0020 is left in the cell.
pub proof fn tsv_safe_maps_exactly_the_listed_chars(s: Seq<char>)
    ensures
        tsv_text(s) == formula_guarded(s.filter_map(listed_tsv_map())),
        forall|i: int|
            0 <= i < tsv_text(s).len() ==> !(#[trigger] tsv_text(s)[i] <= '\u{001F}')
                && !listed_control(tsv_text(s)[i]) && !listed_bidi(tsv_text(s)[i]),
{
    assert(tsv_map() =~= listed_tsv_map());
    crate::laws::tsv_safe_output_is_clean(s);
}

/// `csv_field` keeps CR and LF, removes exactly the other listed controls and the
/// bidi characters, keeps everything else, guards a formula lead-in and quotes
/// per RFC 4180; the only controls in a CSV field are CR and LF.
pub proof fn csv_field_keeps_only_line_breaks(s: Seq<char>)
    ensures
        csv_text(s) == rfc4180_field(formula_guarded(s.filter(listed_csv_keep()))),
        forall|i: int|
            0 <= i < csv_text(s).len() ==> (listed_control(#[trigger] csv_text(s)[i])
                || listed_bidi(csv_text(s)[i])) ==> csv_text(s)[i] == '\n' || csv_text(s)[i]
                == '\r',
{
    assert(csv_keep_fn() =~= listed_csv_keep());
    crate::laws::csv_field_output_is_clean(s);
    let out = csv_text(s);
    assert forall|i: int| 0 <= i < out.len() implies (listed_control(#[trigger] out[i])
        || listed_bidi(out[i])) ==> out[i] == '\n' || out[i] == '\r' by {
        assert(crate::text::csv_keeps(out[i]));
    }
}

/// `jsonl_safe` writes every character as itself but `"`, `\` and the listed
/// controls and bidi characters, and its output holds none of those.
pub proof fn jsonl_safe_escapes_exactly_the_listed_chars(s: Seq<char>)
    ensures
        forall|c: char|
            !listed_control(c) && !listed_bidi(c) && c != '"' && c != '\\' ==> #[trigger] json_escape_char(c)
                == seq![c],
        forall|c: char|
            listed_control(c) || listed_bidi(c) ==> #[trigger] json_escape_char(c)[0] == '\\',
        forall|i: int|
            0 <= i < jsonl_text(s).len() ==> !listed_control(#[trigger] jsonl_text(s)[i])
                && !listed_bidi(jsonl_text(s)[i]),
{
    crate::json_laws::jsonl_safe_output_is_clean(s);
}

/// The formula guard puts an apostrophe in front exactly when the text starts
/// with `=`, `+`, `-` or `@`, and changes nothing else.
pub proof fn formula_guard_only_for_listed_triggers(t: Seq<char>)
    ensures
        t.len() > 0 && (t[0] == '=' || t[0] == '+' || t[0] == '-' || t[0] == '@') ==> formula_guarded(
            t,
        ) == seq!['\''] + t,
        !(t.len() > 0 && (t[0] == '=' || t[0] == '+' || t[0] == '-' || t[0] == '@'))
            ==> formula_guarded(t) == t,
{
}

/// A field is quoted exactly when it holds a comma, a double quote, CR or LF; a
/// quoted field is the field between two double quotes.
pub proof fn csv_quoting_only_for_listed_chars(t: Seq<char>)
    ensures
        (exists|i: int|
            0 <= i < t.len() && (#[trigger] t[i] == ',' || t[i] == '"' || t[i] == '\n' || t[i]
                == '\r')) ==> rfc4180_field(t) == seq!['"'] + crate::text::double_quotes(t) + seq![
            '"',
        ],
        (forall|i: int|
            0 <= i < t.len() ==> !(#[trigger] t[i] == ',' || t[i] == '"' || t[i] == '\n' || t[i]
                == '\r')) ==> rfc4180_field(t) == t,
{
    if exists|i: int|
        0 <= i < t.len() && (#[trigger] t[i] == ',' || t[i] == '"' || t[i] == '\n' || t[i] == '\r') {
        let i = choose|i: int|
            0 <= i < t.len() && (#[trigger] t[i] == ',' || t[i] == '"' || t[i] == '\n' || t[i]
                == '\r');
        assert(crate::text::csv_special(t[i]));
    }
}

} // verus!
