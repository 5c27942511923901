use jsonguard::JsonSafe;

// A `JsonSafe` serializes as its neutralized text, so these tests serialize that
// text with serde_json and look at the JSON that comes out.

#[test]
fn clean_string_passes_through_unchanged() {
    let j = serde_json::to_string(&JsonSafe("System").neutralized()).unwrap();
    assert_eq!(j, "\"System\"");
}

#[test]
fn bidi_override_is_neutralized_to_replacement_char() {
    // U+202E RIGHT-TO-LEFT OVERRIDE in an EPROCESS ImageFileName.
    let j = serde_json::to_string(&JsonSafe("ev\u{202e}il.exe").neutralized()).unwrap();
    assert!(!j.contains('\u{202e}'), "bidi override must not survive: {j}");
    assert!(j.contains('\u{FFFD}'), "scrubbed char marked with U+FFFD: {j}");
    // The output is still parseable JSON with exactly one marker.
    let v: serde_json::Value = serde_json::from_str(&j).unwrap();
    assert_eq!(
        v.as_str().unwrap().chars().filter(|&c| c == '\u{FFFD}').count(),
        1
    );
}

#[test]
fn c1_and_del_are_neutralized() {
    let j = serde_json::to_string(&JsonSafe("a\u{0085}b\u{007f}c").neutralized()).unwrap();
    assert!(!j.contains('\u{0085}'), "C1 NEL must not survive: {j}");
    assert!(!j.contains('\u{007f}'), "DEL must not survive: {j}");
}

#[test]
fn c0_control_is_left_for_serde_to_escape_losslessly() {
    // serde_json escapes a tab as \t: lossless, no replacement needed.
    let j = serde_json::to_string(&JsonSafe("a\tb").neutralized()).unwrap();
    assert_eq!(j, "\"a\\tb\"");
}

#[test]
fn neutralized_replaces_each_unsafe_char_in_place() {
    let s = JsonSafe("\u{200e}x\u{2069}\u{061c}\u{0080}\u{009f}y").neutralized();
    assert_eq!(s, "\u{FFFD}x\u{FFFD}\u{FFFD}\u{FFFD}\u{FFFD}y");
}

#[test]
fn needs_neutralizing_only_for_unsafe_chars() {
    assert!(!JsonSafe("plain \t\n\u{1} text \u{8a31}").needs_neutralizing());
    assert!(JsonSafe("x\u{202a}").needs_neutralizing());
    assert!(JsonSafe("\u{7f}").needs_neutralizing());
    assert_eq!(JsonSafe("a\tb\u{1}").neutralized(), "a\tb\u{1}");
}
