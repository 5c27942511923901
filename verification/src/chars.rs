use vstd::prelude::*;

verus! {

/// The bidirectional formatting characters: LRM, RLM, the embeddings and
/// overrides U+202A..U+202E, the isolates U+2066..U+2069, and the Arabic letter mark.
pub open spec fn bidi_char(c: char) -> bool {
    ||| c == '\u{200E}'
    ||| c == '\u{200F}'
    ||| ('\u{202A}' <= c && c <= '\u{202E}')
    ||| ('\u{2066}' <= c && c <= '\u{2069}')
    ||| c == '\u{061C}'
}

/// The C0 controls, DEL, and the C1 controls.
pub open spec fn control_char(c: char) -> bool {
    ||| c <= '\u{001F}'
    ||| c == '\u{007F}'
    ||| ('\u{0080}' <= c && c <= '\u{009F}')
}

/// A character that no display context may show: a control or a bidi character.
pub open spec fn display_unsafe_char(c: char) -> bool {
    control_char(c) || bidi_char(c)
}

/// The characters that a JSON serializer emits literally but that are unsafe on a
/// display: DEL, the C1 controls and the bidi characters. The C0 controls are not
/// among them: a JSON serializer escapes those itself.
pub open spec fn json_display_unsafe_char(c: char) -> bool {
    ||| c == '\u{007F}'
    ||| ('\u{0080}' <= c && c <= '\u{009F}')
    ||| bidi_char(c)
}

/// A character that makes a spreadsheet read a cell as a formula when it leads.
pub open spec fn formula_trigger(c: char) -> bool {
    c == '=' || c == '+' || c == '-' || c == '@'
}

/// The TSV separators: TAB, LF, CR.
pub open spec fn tsv_separator(c: char) -> bool {
    c == '\t' || c == '\n' || c == '\r'
}

/// A character with the Unicode property `White_Space`.
pub open spec fn white_space_char(c: char) -> bool {
    ||| ('\u{0009}' <= c && c <= '\u{000D}')
    ||| c == ' '
    ||| c == '\u{0085}'
    ||| c == '\u{00A0}'
    ||| c == '\u{1680}'
    ||| ('\u{2000}' <= c && c <= '\u{200A}')
    ||| c == '\u{2028}'
    ||| c == '\u{2029}'
    ||| c == '\u{202F}'
    ||| c == '\u{205F}'
    ||| c == '\u{3000}'
}

/// A character of the Unicode General_Category `Cf` (format characters).
pub open spec fn format_char(c: char) -> bool {
    ||| c == '\u{00AD}'
    ||| ('\u{0600}' <= c && c <= '\u{0605}')
    ||| c == '\u{061C}'
    ||| c == '\u{06DD}'
    ||| c == '\u{070F}'
    ||| ('\u{0890}' <= c && c <= '\u{0891}')
    ||| c == '\u{08E2}'
    ||| c == '\u{180E}'
    ||| ('\u{200B}' <= c && c <= '\u{200F}')
    ||| ('\u{202A}' <= c && c <= '\u{202E}')
    ||| ('\u{2060}' <= c && c <= '\u{2064}')
    ||| ('\u{2066}' <= c && c <= '\u{206F}')
    ||| c == '\u{FEFF}'
    ||| ('\u{FFF9}' <= c && c <= '\u{FFFB}')
    ||| c == '\u{110BD}'
    ||| c == '\u{110CD}'
    ||| ('\u{13430}' <= c && c <= '\u{1343F}')
    ||| ('\u{1BCA0}' <= c && c <= '\u{1BCA3}')
    ||| ('\u{1D173}' <= c && c <= '\u{1D17A}')
    ||| c == '\u{E0001}'
    ||| ('\u{E0020}' <= c && c <= '\u{E007F}')
}

/// A character that a spreadsheet discards, or does not show, ahead of a cell's
/// content: white space and format characters. The first character that is not
/// one of these is what reaches the formula parser.
pub open spec fn lead_in_filler(c: char) -> bool {
    white_space_char(c) || format_char(c)
}

/// The number of bytes of the UTF-8 encoding of `c`.
pub open spec fn utf8_width(c: char) -> nat {
    if c <= '\u{007F}' {
        1
    } else if c <= '\u{07FF}' {
        2
    } else if c <= '\u{FFFF}' {
        3
    } else {
        4
    }
}

pub(crate) fn is_bidi(c: char) -> (r: bool)
    ensures
        r == bidi_char(c),
{
    c == '\u{200E}' || c == '\u{200F}' || ('\u{202A}' <= c && c <= '\u{202E}') || ('\u{2066}' <= c
        && c <= '\u{2069}') || c == '\u{061C}'
}

pub(crate) fn is_control_char(c: char) -> (r: bool)
    ensures
        r == control_char(c),
{
    c <= '\u{001F}' || c == '\u{007F}' || ('\u{0080}' <= c && c <= '\u{009F}')
}

pub(crate) fn is_display_unsafe(c: char) -> (r: bool)
    ensures
        r == display_unsafe_char(c),
{
    is_control_char(c) || is_bidi(c)
}

pub(crate) fn is_json_display_unsafe(c: char) -> (r: bool)
    ensures
        r == json_display_unsafe_char(c),
{
    c == '\u{007F}' || ('\u{0080}' <= c && c <= '\u{009F}') || is_bidi(c)
}

pub(crate) fn is_formula_trigger(c: char) -> (r: bool)
    ensures
        r == formula_trigger(c),
{
    c == '=' || c == '+' || c == '-' || c == '@'
}

pub(crate) fn is_lead_in_filler(c: char) -> (r: bool)
    ensures
        r == lead_in_filler(c),
{
    let white = ('\u{0009}' <= c && c <= '\u{000D}') || c == ' ' || c == '\u{0085}' || c
        == '\u{00A0}' || c == '\u{1680}' || ('\u{2000}' <= c && c <= '\u{200A}') || c == '\u{2028}'
        || c == '\u{2029}' || c == '\u{202F}' || c == '\u{205F}' || c == '\u{3000}';
    let format = c == '\u{00AD}' || ('\u{0600}' <= c && c <= '\u{0605}') || c == '\u{061C}' || c
        == '\u{06DD}' || c == '\u{070F}' || ('\u{0890}' <= c && c <= '\u{0891}') || c == '\u{08E2}'
        || c == '\u{180E}' || ('\u{200B}' <= c && c <= '\u{200F}') || ('\u{202A}' <= c && c
        <= '\u{202E}') || ('\u{2060}' <= c && c <= '\u{2064}') || ('\u{2066}' <= c && c
        <= '\u{206F}') || c == '\u{FEFF}' || ('\u{FFF9}' <= c && c <= '\u{FFFB}') || c
        == '\u{110BD}' || c == '\u{110CD}' || ('\u{13430}' <= c && c <= '\u{1343F}') || (
    '\u{1BCA0}' <= c && c <= '\u{1BCA3}') || ('\u{1D173}' <= c && c <= '\u{1D17A}') || c
        == '\u{E0001}' || ('\u{E0020}' <= c && c <= '\u{E007F}');
    white || format
}

pub(crate) fn len_utf8(c: char) -> (r: usize)
    ensures
        r == utf8_width(c),
{
    if c <= '\u{007F}' {
        1
    } else if c <= '\u{07FF}' {
        2
    } else if c <= '\u{FFFF}' {
        3
    } else {
        4
    }
}

} // verus!
