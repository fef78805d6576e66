use esc_sentry::{scan, Policy, Violation};

const SAMPLES: &[&str] = &[
    "",
    "plain text",
    "\x1b[1;31mred\x1b[0m plain",
    "before\x1b[?1049hafter",
    "\x1b]0;window title\x07rest",
    "\x1b]0;never closes",
    "hello\x1b",
    "a\u{9b}b",
    "x\x1b\x1b[mq\x1b]8;;http://e\x1b\\link\x1b]8;;\x1b\\ end\x1bc\u{85}",
    "\x1b[12\x01\x1bP q\u{9c}\x1b_\x1b[?25l é",
];

fn offset_of(v: &Violation) -> usize {
    match v {
        Violation::DisallowedSequence { offset, .. } => *offset,
        Violation::UnterminatedSequence { offset, .. } => *offset,
        Violation::BareEscape { offset } => *offset,
        Violation::RawC1Control { offset, .. } => *offset,
    }
}

#[test]
fn sanitizing_twice_changes_nothing() {
    for input in SAMPLES {
        for policy in [Policy::strict(), Policy::lenient()] {
            let once = scan(input, &policy);
            let twice = scan(&once.sanitized, &policy);
            assert_eq!(twice.sanitized, once.sanitized, "input {input:?}");
        }
    }
}

#[test]
fn strict_output_scans_clean_and_has_no_c1() {
    for input in SAMPLES {
        let once = scan(input, &Policy::strict());
        assert!(scan(&once.sanitized, &Policy::strict()).is_clean(), "input {input:?}");
        assert!(once.sanitized.chars().all(|c| !('\u{80}'..='\u{9f}').contains(&c)));
    }
}

#[test]
fn violations_do_not_depend_on_policy() {
    for input in SAMPLES {
        assert_eq!(
            scan(input, &Policy::strict()).violations,
            scan(input, &Policy::lenient()).violations
        );
    }
}

#[test]
fn clean_scans_return_their_input() {
    for input in SAMPLES {
        for policy in [Policy::strict(), Policy::lenient()] {
            let r = scan(input, &policy);
            if r.is_clean() {
                assert_eq!(r.sanitized, *input);
            }
        }
    }
}

#[test]
fn lenient_removes_only_broken_sequences() {
    let input = "\x1b]0;t\x07 \x1bc \u{9b} \x1b[2J done";
    let r = scan(input, &Policy::lenient());
    assert_eq!(r.violations.len(), 4);
    assert_eq!(r.sanitized, input);
}

#[test]
fn violations_come_in_text_order() {
    for input in SAMPLES {
        let r = scan(input, &Policy::strict());
        let offsets: Vec<usize> = r.violations.iter().map(offset_of).collect();
        assert!(offsets.windows(2).all(|w| w[0] < w[1]), "input {input:?}");
        assert!(offsets.iter().all(|&o| o < input.len()));
    }
}

fn is_raw_control(c: char) -> bool {
    (c as u32) < 0x20 || (0x7f..=0x9f).contains(&(c as u32))
}

#[test]
fn json_report_holds_no_raw_controls() {
    for input in SAMPLES {
        for quiet in [false, true] {
            let r = scan(input, &Policy::lenient());
            let report = esc_sentry::report::render_json_report(&r, quiet);
            assert!(!report.chars().any(is_raw_control), "input {input:?}");
        }
    }
    assert!(!esc_sentry::report::json_escape("\x00\x1b\x7f\u{80}\u{9f}").chars().any(is_raw_control));
}

#[test]
fn findings_point_at_their_text() {
    for input in SAMPLES {
        for v in scan(input, &Policy::strict()).violations {
            let at = &input[offset_of(&v)..];
            match &v {
                Violation::DisallowedSequence { bytes, .. } => assert!(at.starts_with(bytes.as_str())),
                Violation::UnterminatedSequence { .. } | Violation::BareEscape { .. } => {
                    assert!(at.starts_with('\x1b'))
                }
                Violation::RawC1Control { codepoint, .. } => {
                    assert_eq!(at.chars().next().map(|c| c as u32), Some(*codepoint))
                }
            }
        }
    }
}

#[test]
fn clean_exactly_when_only_text_and_sgr() {
    assert!(scan("a\x1b[1;2mb\x1b[m", &Policy::strict()).is_clean());
    assert!(!scan("a\x1b[1;2Hb", &Policy::strict()).is_clean());
    assert!(!scan("a\u{90}b", &Policy::strict()).is_clean());
    for input in SAMPLES {
        let out = scan(input, &Policy::strict()).sanitized;
        assert!(!out.chars().any(|c| (0x80..=0x9f).contains(&(c as u32))));
    }
}
