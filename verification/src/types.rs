use vstd::prelude::*;

verus! {

/// The output of a sanitizer.
///
/// `value` is the sanitized text; `lossy` is true exactly when the input was
/// bytes that were not valid UTF-8, so that decoding replaced some of them.
pub struct Guarded {
    pub value: String,
    pub lossy: bool,
}

impl Guarded {
    /// The sanitized text, as the type's textual form.
    pub fn to_string(&self) -> (r: String)
        ensures
            r@ == self.value@,
    {
        self.value.clone()
    }
}

/// The output of a lossy UTF-8 decode.
pub struct DecodedStr {
    pub text: String,
    pub lossy: bool,
}

impl DecodedStr {
    /// The decoded text, as the type's textual form.
    pub fn to_string(&self) -> (r: String)
        ensures
            r@ == self.text@,
    {
        self.text.clone()
    }
}

/// The class of a dangerous pattern found by `inspect`.
#[derive(Debug, Clone, Copy, PartialEq, Eq, Structural)]
pub enum ViolationKind {
    FormulaInjection,
    BidiOverride,
    ControlChar,
    InvalidUtf8,
}

/// One dangerous pattern: what it is, where it starts, and which character it is
/// (`None` for an invalid UTF-8 sequence).
#[derive(Debug, Clone, Copy, PartialEq, Eq, Structural)]
pub struct Violation {
    pub kind: ViolationKind,
    pub byte_offset: usize,
    pub char: Option<char>,
}

/// The report of `inspect`.
#[derive(Debug)]
pub struct Findings {
    pub violations: Vec<Violation>,
    pub lossy: bool,
}

/// Some violation in `vs` is of the given kind.
pub open spec fn has_kind(vs: Seq<Violation>, kind: ViolationKind) -> bool {
    exists|i: int| 0 <= i < vs.len() && #[trigger] vs[i].kind == kind
}

/// A violation that makes a value unsafe to emit as a quoted CSV field.
/// Line breaks are the one exception: RFC 4180 quoting carries them.
pub open spec fn blocks_csv(v: Violation) -> bool {
    match v.kind {
        ViolationKind::ControlChar => !(v.char == Some('\n') || v.char == Some('\r')),
        _ => true,
    }
}

/// A violation that makes a value unsafe inside a JSON string or on a display:
/// everything but a formula lead-in, which means nothing there.
pub open spec fn blocks_jsonl(v: Violation) -> bool {
    v.kind != ViolationKind::FormulaInjection
}

/// Some violation in `vs` blocks a CSV field.
pub open spec fn csv_blocked(vs: Seq<Violation>) -> bool {
    exists|i: int| 0 <= i < vs.len() && #[trigger] blocks_csv(vs[i])
}

/// Some violation in `vs` blocks a JSON string or a display.
pub open spec fn jsonl_blocked(vs: Seq<Violation>) -> bool {
    exists|i: int| 0 <= i < vs.len() && #[trigger] blocks_jsonl(vs[i])
}

fn any_of_kind(vs: &Vec<Violation>, kind: ViolationKind) -> (r: bool)
    ensures
        r == has_kind(vs@, kind),
{
    let mut i: usize = 0;
    while i < vs.len()
        invariant
            i <= vs.len(),
            forall|k: int| 0 <= k < i ==> vs@[k].kind != kind,
        decreases vs.len() - i,
    {
        if vs[i].kind == kind {
            return true;
        }
        i = i + 1;
    }
    false
}

impl Findings {
    /// No violation was found.
    pub fn is_clean(&self) -> (r: bool)
        ensures
            r == (self.violations@.len() == 0),
    {
        self.violations.len() == 0
    }

    pub fn has_formula(&self) -> (r: bool)
        ensures
            r == has_kind(self.violations@, ViolationKind::FormulaInjection),
    {
        any_of_kind(&self.violations, ViolationKind::FormulaInjection)
    }

    pub fn has_bidi(&self) -> (r: bool)
        ensures
            r == has_kind(self.violations@, ViolationKind::BidiOverride),
    {
        any_of_kind(&self.violations, ViolationKind::BidiOverride)
    }

    pub fn has_controls(&self) -> (r: bool)
        ensures
            r == has_kind(self.violations@, ViolationKind::ControlChar),
    {
        any_of_kind(&self.violations, ViolationKind::ControlChar)
    }

    pub fn has_invalid_utf8(&self) -> (r: bool)
        ensures
            r == has_kind(self.violations@, ViolationKind::InvalidUtf8),
    {
        any_of_kind(&self.violations, ViolationKind::InvalidUtf8)
    }

    /// Safe to emit as a CSV field: no violation but CR/LF control characters.
    pub fn is_csv_safe(&self) -> (r: bool)
        ensures
            r == !csv_blocked(self.violations@),
    {
        let mut i: usize = 0;
        while i < self.violations.len()
            invariant
                i <= self.violations.len(),
                forall|k: int| 0 <= k < i ==> !blocks_csv(#[trigger] self.violations@[k]),
            decreases self.violations.len() - i,
        {
            let v = self.violations[i];
            let blocks = match v.kind {
                ViolationKind::FormulaInjection => true,
                ViolationKind::BidiOverride => true,
                ViolationKind::InvalidUtf8 => true,
                ViolationKind::ControlChar => match v.char {
                    Some(c) => !(c == '\n' || c == '\r'),
                    None => true,
                },
            };
            if blocks {
                assert(blocks_csv(self.violations@[i as int]));
                return false;
            }
            i = i + 1;
        }
        true
    }

    /// Safe to emit into a TSV cell unchanged: no violation at all.
    pub fn is_tsv_safe(&self) -> (r: bool)
        ensures
            r == (self.violations@.len() == 0),
    {
        self.is_clean()
    }

    /// Safe inside a JSON string: no violation but a formula lead-in.
    pub fn is_jsonl_safe(&self) -> (r: bool)
        ensures
            r == !jsonl_blocked(self.violations@),
    {
        let mut i: usize = 0;
        while i < self.violations.len()
            invariant
                i <= self.violations.len(),
                forall|k: int| 0 <= k < i ==> !blocks_jsonl(#[trigger] self.violations@[k]),
            decreases self.violations.len() - i,
        {
            let blocks = match self.violations[i].kind {
                ViolationKind::FormulaInjection => false,
                _ => true,
            };
            if blocks {
                assert(blocks_jsonl(self.violations@[i as int]));
                return false;
            }
            i = i + 1;
        }
        true
    }

    /// Safe to show on a display: the same verdict as `is_jsonl_safe`.
    pub fn is_display_safe(&self) -> (r: bool)
        ensures
            r == !jsonl_blocked(self.violations@),
    {
        self.is_jsonl_safe()
    }
}

} // verus!
