use esc_sentry::{scan, Policy, Violation};

#[test]
fn strict_allows_sgr() {
    let input = "\x1b[1;31mred\x1b[0m plain";
    let result = scan(input, &Policy::strict());
    assert_eq!(result.sanitized, input);
    assert!(result.is_clean());
}

#[test]
fn strict_strips_private_mode_csi() {
    // ESC [ ? 1049 h switches to the alternate screen buffer.
    let input = "before\x1b[?1049hafter";
    let result = scan(input, &Policy::strict());
    assert_eq!(result.sanitized, "beforeafter");
    assert_eq!(result.violations.len(), 1);
}

#[test]
fn strict_strips_osc_and_lenient_keeps_it() {
    let input = "\x1b]0;window title\x07rest";
    let strict = scan(input, &Policy::strict());
    assert_eq!(strict.sanitized, "rest");
    assert_eq!(strict.violations.len(), 1);

    let lenient = scan(input, &Policy::lenient());
    assert_eq!(lenient.sanitized, input);
}

#[test]
fn unterminated_osc_is_always_dropped() {
    let input = "\x1b]0;never closes";
    let strict = scan(input, &Policy::strict());
    let lenient = scan(input, &Policy::lenient());
    assert_eq!(strict.sanitized, "");
    assert_eq!(lenient.sanitized, "");
    assert_eq!(strict.violations.len(), 1);
    assert_eq!(lenient.violations.len(), 1);
}

#[test]
fn bare_trailing_escape_is_dropped() {
    let input = "hello\x1b";
    let result = scan(input, &Policy::lenient());
    assert_eq!(result.sanitized, "hello");
    assert!(matches!(
        result.violations.as_slice(),
        [Violation::BareEscape { offset: 5 }]
    ));
}

#[test]
fn raw_c1_control_is_dropped_in_strict_mode() {
    let input = "a\u{9b}b"; // U+009B is the C1 form of CSI
    let strict = scan(input, &Policy::strict());
    assert_eq!(strict.sanitized, "ab");
    let lenient = scan(input, &Policy::lenient());
    assert_eq!(lenient.sanitized, input);
}
