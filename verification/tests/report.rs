use esc_sentry::report::{describe, escape_for_display, json_escape, render_json_report, violation_to_json};
use esc_sentry::{scan, Policy, SequenceKind, Violation};

#[test]
fn json_report_matches_readme_example() {
    let result = scan("title trick \x1b]0;evil\x07 rest", &Policy::strict());
    assert_eq!(
        render_json_report(&result, false),
        r#"{"clean":false,"sanitized":"title trick  rest","violations":[{"type":"disallowed_sequence","kind":"OSC","offset":12,"bytes":"\u001b]0;evil\u0007"}]}"#
    );
}

#[test]
fn quiet_json_report_keeps_clean_and_sanitized() {
    let result = scan("title trick \x1b]0;evil\x07 rest", &Policy::strict());
    assert_eq!(
        render_json_report(&result, true),
        r#"{"clean":false,"sanitized":"title trick  rest","violations":[]}"#
    );
}

#[test]
fn json_report_of_clean_text() {
    let result = scan("ok", &Policy::strict());
    assert_eq!(
        render_json_report(&result, false),
        r#"{"clean":true,"sanitized":"ok","violations":[]}"#
    );
}

#[test]
fn json_report_separates_violations_with_commas() {
    let result = scan("\x1bc\u{85}\x1b", &Policy::strict());
    assert_eq!(
        render_json_report(&result, false),
        [
            r#"{"clean":false,"sanitized":"","violations":["#,
            r#"{"type":"disallowed_sequence","kind":"simple","offset":0,"bytes":"\u001bc"},"#,
            r#"{"type":"raw_c1_control","offset":2,"codepoint":133},"#,
            r#"{"type":"bare_escape","offset":4}]}"#,
        ]
        .join("")
    );
}

#[test]
fn json_escape_covers_quotes_controls_del_and_c1() {
    assert_eq!(json_escape("a\"b\\c"), r#"a\"b\\c"#);
    assert_eq!(json_escape("\n\r\t"), r#"\n\r\t"#);
    assert_eq!(json_escape("\x01\x1f\x7f\u{9f}\u{a0}é"), "\\u0001\\u001f\\u007f\\u009f\u{a0}é");
}

#[test]
fn escape_for_display_shows_control_characters() {
    assert_eq!(escape_for_display("\x1b]0;evil\x07"), "\\x1b]0;evil\\x07");
    assert_eq!(escape_for_display("\x7fx\u{9b}"), "\\x7fx\u{9b}");
}

#[test]
fn describe_each_violation() {
    let result = scan("title trick \x1b]0;evil\x07 rest", &Policy::strict());
    assert_eq!(
        describe(&result.violations[0]),
        "byte 12: disallowed OSC sequence (\\x1b]0;evil\\x07)"
    );
    assert_eq!(
        describe(&Violation::UnterminatedSequence { kind: SequenceKind::Csi, offset: 1234 }),
        "byte 1234: unterminated CSI sequence"
    );
    assert_eq!(
        describe(&Violation::BareEscape { offset: 0 }),
        "byte 0: bare escape with no valid sequence following"
    );
    assert_eq!(
        describe(&Violation::RawC1Control { offset: 7, codepoint: 0x9b }),
        "byte 7: raw C1 control character U+009B"
    );
    assert_eq!(
        describe(&Violation::RawC1Control { offset: 7, codepoint: 0x1f600 }),
        "byte 7: raw C1 control character U+1F600"
    );
}

#[test]
fn violation_json_for_each_kind() {
    assert_eq!(
        violation_to_json(&Violation::UnterminatedSequence { kind: SequenceKind::Dcs, offset: 3 }),
        r#"{"type":"unterminated_sequence","kind":"DCS","offset":3}"#
    );
    assert_eq!(
        violation_to_json(&Violation::RawC1Control { offset: 10, codepoint: 155 }),
        r#"{"type":"raw_c1_control","offset":10,"codepoint":155}"#
    );
    assert_eq!(
        violation_to_json(&Violation::BareEscape { offset: 42 }),
        r#"{"type":"bare_escape","offset":42}"#
    );
}

fn decode_json_body(t: &str) -> Option<String> {
    let mut out = String::new();
    let mut it = t.chars();
    while let Some(c) = it.next() {
        match c {
            '\\' => match it.next()? {
                '"' => out.push('"'),
                '\\' => out.push('\\'),
                '/' => out.push('/'),
                'b' => out.push('\u{8}'),
                'f' => out.push('\u{c}'),
                'n' => out.push('\n'),
                'r' => out.push('\r'),
                't' => out.push('\t'),
                'u' => {
                    let hex: String = (0..4).filter_map(|_| it.next()).collect();
                    let v = u32::from_str_radix(&hex, 16).ok()?;
                    out.push(char::from_u32(v)?);
                }
                _ => return None,
            },
            '"' => return None,
            c if (c as u32) < 0x20 => return None,
            c => out.push(c),
        }
    }
    Some(out)
}

#[test]
fn json_escape_round_trips() {
    for s in ["", "plain", "q\"b\\s/", "\x00\x01\x1b[1m\x7f\u{80}\u{9f}\u{a0}", "\n\r\t é 😀"] {
        assert_eq!(decode_json_body(&json_escape(s)).as_deref(), Some(s));
    }
}
