use esc_sentry::{scan, Policy, ScanResult, SequenceKind, Violation};

fn both(input: &str) -> (ScanResult, ScanResult) {
    (scan(input, &Policy::strict()), scan(input, &Policy::lenient()))
}

#[test]
fn plain_text_is_copied_character_by_character() {
    let (strict, lenient) = both("abc déf ✓ 😀");
    assert_eq!(strict.sanitized, "abc déf ✓ 😀");
    assert_eq!(lenient.sanitized, "abc déf ✓ 😀");
    assert!(strict.is_clean());
    assert!(lenient.is_clean());
}

#[test]
fn empty_input_gives_empty_clean_result() {
    let result = scan("", &Policy::strict());
    assert_eq!(result.sanitized, "");
    assert!(result.is_clean());
}

#[test]
fn default_policy_is_strict() {
    assert_eq!(Policy::default(), Policy::strict());
    assert!(!Policy::default().lenient);
    assert!(Policy::lenient().lenient);
}

#[test]
fn offsets_count_utf8_bytes() {
    // "é" takes two bytes, so the OSC starts at byte 2.
    let result = scan("é\x1b]0;t\x07x", &Policy::strict());
    assert_eq!(result.sanitized, "éx");
    assert_eq!(
        result.violations,
        vec![Violation::DisallowedSequence {
            kind: SequenceKind::Osc,
            offset: 2,
            bytes: "\x1b]0;t\x07".to_string(),
        }]
    );
}

#[test]
fn raw_c1_reports_offset_and_codepoint() {
    let result = scan("a\u{9b}b", &Policy::strict());
    assert_eq!(
        result.violations,
        vec![Violation::RawC1Control { offset: 1, codepoint: 0x9b }]
    );
}

#[test]
fn seven_bit_string_terminator_ends_a_string_sequence() {
    let (strict, lenient) = both("\x1b]0;t\x1b\\x");
    assert_eq!(strict.sanitized, "x");
    assert_eq!(lenient.sanitized, "\x1b]0;t\x1b\\x");
    assert_eq!(
        strict.violations,
        vec![Violation::DisallowedSequence {
            kind: SequenceKind::Osc,
            offset: 0,
            bytes: "\x1b]0;t\x1b\\".to_string(),
        }]
    );
}

#[test]
fn eight_bit_string_terminator_ends_a_string_sequence() {
    let (strict, lenient) = both("\x1b_app\u{9c}y");
    assert_eq!(strict.sanitized, "y");
    assert_eq!(lenient.sanitized, "\x1b_app\u{9c}y");
    assert!(matches!(
        strict.violations.as_slice(),
        [Violation::DisallowedSequence { kind: SequenceKind::Apc, offset: 0, .. }]
    ));
}

#[test]
fn each_string_introducer_has_its_family() {
    let cases = [
        ("\x1b]x\x07", SequenceKind::Osc),
        ("\x1bPx\x07", SequenceKind::Dcs),
        ("\x1bXx\x07", SequenceKind::Sos),
        ("\x1b^x\x07", SequenceKind::Pm),
        ("\x1b_x\x07", SequenceKind::Apc),
    ];
    for (input, expected) in cases {
        let result = scan(input, &Policy::strict());
        assert_eq!(result.sanitized, "");
        assert!(matches!(
            result.violations.as_slice(),
            [Violation::DisallowedSequence { kind, offset: 0, .. }] if *kind == expected
        ));
    }
}

#[test]
fn escape_inside_string_sequence_cuts_it_short() {
    let (strict, lenient) = both("\x1b]0;t\x1b[1mX");
    assert_eq!(strict.sanitized, "\x1b[1mX");
    assert_eq!(lenient.sanitized, "\x1b[1mX");
    assert_eq!(
        strict.violations,
        vec![Violation::UnterminatedSequence { kind: SequenceKind::Osc, offset: 0 }]
    );
}

#[test]
fn simple_escape_is_disallowed_in_strict_and_kept_in_lenient() {
    let (strict, lenient) = both("a\x1bcb");
    assert_eq!(strict.sanitized, "ab");
    assert_eq!(lenient.sanitized, "a\x1bcb");
    assert_eq!(
        strict.violations,
        vec![Violation::DisallowedSequence {
            kind: SequenceKind::Simple,
            offset: 1,
            bytes: "\x1bc".to_string(),
        }]
    );
    assert_eq!(strict.violations, lenient.violations);
}

#[test]
fn private_sgr_is_not_plain_sgr() {
    let (strict, lenient) = both("\x1b[?1m");
    assert_eq!(strict.sanitized, "");
    assert_eq!(lenient.sanitized, "\x1b[?1m");
    assert_eq!(
        strict.violations,
        vec![Violation::DisallowedSequence {
            kind: SequenceKind::Csi,
            offset: 0,
            bytes: "\x1b[?1m".to_string(),
        }]
    );
}

#[test]
fn private_marker_counts_only_first() {
    // '?' after another parameter does not make the sequence private.
    let result = scan("\x1b[1?m", &Policy::strict());
    assert_eq!(result.sanitized, "\x1b[1?m");
    assert!(result.is_clean());
    // An intermediate first: the '?' that follows is no marker either.
    let result = scan("\x1b[ ?m", &Policy::strict());
    assert_eq!(result.sanitized, "\x1b[ ?m");
    assert!(result.is_clean());
}

#[test]
fn cursor_movement_csi_is_disallowed() {
    let (strict, lenient) = both("x\x1b[2Ay");
    assert_eq!(strict.sanitized, "xy");
    assert_eq!(lenient.sanitized, "x\x1b[2Ay");
    assert_eq!(strict.violations.len(), 1);
}

#[test]
fn unterminated_csi_is_always_dropped() {
    let (strict, lenient) = both("\x1b[12");
    assert_eq!(strict.sanitized, "");
    assert_eq!(lenient.sanitized, "");
    assert_eq!(
        lenient.violations,
        vec![Violation::UnterminatedSequence { kind: SequenceKind::Csi, offset: 0 }]
    );
}

#[test]
fn csi_broken_by_a_control_character_keeps_what_follows() {
    let (strict, lenient) = both("\x1b[1\x01x");
    assert_eq!(strict.sanitized, "\x01x");
    assert_eq!(lenient.sanitized, "\x01x");
    assert_eq!(
        strict.violations,
        vec![Violation::UnterminatedSequence { kind: SequenceKind::Csi, offset: 0 }]
    );
}

#[test]
fn bare_escape_before_a_control_character() {
    let (strict, lenient) = both("\x1b\x01z");
    assert_eq!(strict.sanitized, "\x01z");
    assert_eq!(lenient.sanitized, "\x01z");
    assert_eq!(strict.violations, vec![Violation::BareEscape { offset: 0 }]);
}

#[test]
fn labels_name_each_family() {
    assert_eq!(SequenceKind::Csi.label(), "CSI");
    assert_eq!(SequenceKind::Osc.label(), "OSC");
    assert_eq!(SequenceKind::Dcs.label(), "DCS");
    assert_eq!(SequenceKind::Sos.label(), "SOS");
    assert_eq!(SequenceKind::Pm.label(), "PM");
    assert_eq!(SequenceKind::Apc.label(), "APC");
    assert_eq!(SequenceKind::Simple.label(), "simple");
}

#[test]
fn is_clean_follows_violations() {
    let dirty = scan("\x1bc", &Policy::lenient());
    assert!(!dirty.is_clean());
    let clean = scan("\x1b[0m", &Policy::lenient());
    assert!(clean.is_clean());
}
