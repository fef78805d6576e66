//! Text renderings of a scan's findings: one human-readable line per
//! violation, and a single-line JSON report of a whole scan.
use vstd::prelude::*;
use vstd::string::{StrSliceExecFns, StringExecFns};

use crate::model::{kind_label, violation_views, ScanResult, Violation, ViolationView};
use crate::text::push_char;

verus! {

/// The digit for `d` (below 16) in hexadecimal, `a`-`f` or `A`-`F` above nine.
pub open spec fn digit_char(d: nat, upper: bool) -> char {
    if d < 10 {
        (d + 48) as char
    } else if upper {
        (d + 55) as char
    } else {
        (d + 87) as char
    }
}

/// `n` written in decimal, without leading zeros.
pub open spec fn decimal(n: nat) -> Seq<char>
    decreases n,
{
    if n < 10 {
        seq![digit_char(n, false)]
    } else {
        decimal(n / 10).push(digit_char(n % 10, false))
    }
}

/// `n` written in hexadecimal, without leading zeros.
pub open spec fn hex(n: nat, upper: bool) -> Seq<char>
    decreases n,
{
    if n < 16 {
        seq![digit_char(n, upper)]
    } else {
        hex(n / 16, upper).push(digit_char(n % 16, upper))
    }
}

/// `digits` with zeros in front up to `width` characters.
pub open spec fn zero_padded(digits: Seq<char>, width: nat) -> Seq<char> {
    if digits.len() < width {
        Seq::new((width - digits.len()) as nat, |_i: int| '0') + digits
    } else {
        digits
    }
}

/// How `c` stands inside a JSON string literal. Besides the characters JSON
/// requires to be escaped, DEL and the C1 controls are written as `\u00XX`.
pub open spec fn json_escaped_char(c: char) -> Seq<char> {
    if c == '"' {
        "\\\""@
    } else if c == '\\' {
        "\\\\"@
    } else if c == '\n' {
        "\\n"@
    } else if c == '\r' {
        "\\r"@
    } else if c == '\t' {
        "\\t"@
    } else if c < ' ' || ('\u{7f}' <= c && c <= '\u{9f}') {
        "\\u"@ + zero_padded(hex((c as u32) as nat, false), 4)
    } else {
        seq![c]
    }
}

/// `s` escaped for a JSON string literal, character by character.
pub open spec fn json_escaped(s: Seq<char>) -> Seq<char>
    decreases s.len(),
{
    if s.len() == 0 {
        Seq::empty()
    } else {
        json_escaped(s.drop_last()) + json_escaped_char(s.last())
    }
}

/// The value of a hexadecimal digit of either case.
pub open spec fn hex_digit_value(c: char) -> Option<nat> {
    if '0' <= c && c <= '9' {
        Some(((c as u32) - 48) as nat)
    } else if 'a' <= c && c <= 'f' {
        Some(((c as u32) - 87) as nat)
    } else if 'A' <= c && c <= 'F' {
        Some(((c as u32) - 55) as nat)
    } else {
        None
    }
}

/// The value of the four hexadecimal digits at positions `j` to `j + 3` of `t`.
pub open spec fn hex4_value(t: Seq<char>, j: int) -> Option<nat> {
    if 0 <= j && j + 4 <= t.len() && hex_digit_value(t[j]) is Some && hex_digit_value(t[j + 1]) is Some
        && hex_digit_value(t[j + 2]) is Some && hex_digit_value(t[j + 3]) is Some {
        Some(
            4096 * hex_digit_value(t[j])->0 + 256 * hex_digit_value(t[j + 1])->0 + 16
                * hex_digit_value(t[j + 2])->0 + hex_digit_value(t[j + 3])->0,
        )
    } else {
        None
    }
}

/// The character that a two-character JSON escape `\e` stands for.
pub open spec fn json_short_escape(e: char) -> Option<char> {
    if e == '"' {
        Some('"')
    } else if e == '\\' {
        Some('\\')
    } else if e == '/' {
        Some('/')
    } else if e == 'b' {
        Some('\u{8}')
    } else if e == 'f' {
        Some('\u{c}')
    } else if e == 'n' {
        Some('\n')
    } else if e == 'r' {
        Some('\r')
    } else if e == 't' {
        Some('\t')
    } else {
        None
    }
}

/// `c` in front of a decoded text, if there is one.
pub open spec fn prepend_char(c: char, rest: Option<Seq<char>>) -> Option<Seq<char>> {
    match rest {
        Some(r) => Some(seq![c] + r),
        None => None,
    }
}

/// The text that the body of a JSON string literal (RFC 8259, between its
/// quotes) stands for; `None` where the body is not valid.
pub open spec fn json_string_body(t: Seq<char>) -> Option<Seq<char>>
    decreases t.len(),
{
    if t.len() == 0 {
        Some(Seq::empty())
    } else if t[0] == '\\' {
        if t.len() >= 2 && json_short_escape(t[1]) is Some {
            prepend_char(json_short_escape(t[1])->0, json_string_body(t.skip(2)))
        } else if t.len() >= 6 && t[1] == 'u' && hex4_value(t, 2) is Some {
            let v = hex4_value(t, 2)->0;
            if v < 0xd800 || 0xdfff < v {
                prepend_char(v as char, json_string_body(t.skip(6)))
            } else if v <= 0xdbff && t.len() >= 12 && t[6] == '\\' && t[7] == 'u' && hex4_value(
                t,
                8,
            ) is Some && 0xdc00 <= hex4_value(t, 8)->0 <= 0xdfff {
                let w = hex4_value(t, 8)->0;
                prepend_char(
                    (0x10000 + (v - 0xd800) * 0x400 + (w - 0xdc00)) as char,
                    json_string_body(t.skip(12)),
                )
            } else {
                None
            }
        } else {
            None
        }
    } else if t[0] == '"' || !(' ' <= t[0]) {
        None
    } else {
        prepend_char(t[0], json_string_body(t.skip(1)))
    }
}

/// The text that a JSON string literal, quotes included, stands for.
pub open spec fn json_string_literal(t: Seq<char>) -> Option<Seq<char>> {
    if t.len() >= 2 && t[0] == '"' && t[t.len() - 1] == '"' {
        json_string_body(t.subrange(1, t.len() - 1))
    } else {
        None
    }
}

/// How `c` shows in a report line: C0 controls and DEL as `\xXX`.
pub open spec fn display_escaped_char(c: char) -> Seq<char> {
    if c < ' ' || c == '\u{7f}' {
        "\\x"@ + zero_padded(hex((c as u32) as nat, false), 2)
    } else {
        seq![c]
    }
}

/// `s` with its control characters made visible, character by character.
pub open spec fn display_escaped(s: Seq<char>) -> Seq<char>
    decreases s.len(),
{
    if s.len() == 0 {
        Seq::empty()
    } else {
        display_escaped(s.drop_last()) + display_escaped_char(s.last())
    }
}

/// The report line for a violation.
pub open spec fn description(v: ViolationView) -> Seq<char> {
    match v {
        ViolationView::DisallowedSequence { kind, offset, bytes } => "byte "@ + decimal(offset)
            + ": disallowed "@ + kind_label(kind) + " sequence ("@ + display_escaped(bytes) + ")"@,
        ViolationView::UnterminatedSequence { kind, offset } => "byte "@ + decimal(offset)
            + ": unterminated "@ + kind_label(kind) + " sequence"@,
        ViolationView::BareEscape { offset } => "byte "@ + decimal(offset)
            + ": bare escape with no valid sequence following"@,
        ViolationView::RawC1Control { offset, codepoint } => "byte "@ + decimal(offset)
            + ": raw C1 control character U+"@ + zero_padded(hex(codepoint as nat, true), 4),
    }
}

/// The JSON object for a violation.
pub open spec fn violation_json(v: ViolationView) -> Seq<char> {
    match v {
        ViolationView::DisallowedSequence { kind, offset, bytes } =>
            "{\"type\":\"disallowed_sequence\",\"kind\":\""@ + kind_label(kind) + "\",\"offset\":"@
                + decimal(offset) + ",\"bytes\":\""@ + json_escaped(bytes) + "\"}"@,
        ViolationView::UnterminatedSequence { kind, offset } =>
            "{\"type\":\"unterminated_sequence\",\"kind\":\""@ + kind_label(kind)
                + "\",\"offset\":"@ + decimal(offset) + "}"@,
        ViolationView::BareEscape { offset } => "{\"type\":\"bare_escape\",\"offset\":"@ + decimal(
            offset,
        ) + "}"@,
        ViolationView::RawC1Control { offset, codepoint } =>
            "{\"type\":\"raw_c1_control\",\"offset\":"@ + decimal(offset) + ",\"codepoint\":"@
                + decimal(codepoint as nat) + "}"@,
    }
}

/// The JSON objects for a list of violations, separated by commas.
pub open spec fn violations_json(vs: Seq<ViolationView>) -> Seq<char>
    decreases vs.len(),
{
    if vs.len() == 0 {
        Seq::empty()
    } else if vs.len() == 1 {
        violation_json(vs[0])
    } else {
        violations_json(vs.drop_last()) + ","@ + violation_json(vs.last())
    }
}

/// The single-line JSON report of a scan: whether it was clean, the
/// sanitized text, and the violations (an empty list when `quiet`).
pub open spec fn json_report(sanitized: Seq<char>, vs: Seq<ViolationView>, quiet: bool) -> Seq<
    char,
> {
    "{\"clean\":"@ + (if vs.len() == 0 {
        "true"@
    } else {
        "false"@
    }) + ",\"sanitized\":\""@ + json_escaped(sanitized) + "\",\"violations\":["@ + (if quiet {
        Seq::empty()
    } else {
        violations_json(vs)
    }) + "]}"@
}

/// The hexadecimal or decimal digit for `d`.
fn digit(d: u32, upper: bool) -> (c: char)
    requires
        d < 16,
    ensures
        c == digit_char(d as nat, upper),
{
    let b = d as u8;
    if b < 10 {
        (b + 48) as char
    } else if upper {
        (b + 55) as char
    } else {
        (b + 87) as char
    }
}

/// Appends `n` in decimal.
fn push_decimal(out: &mut String, n: usize)
    ensures
        final(out)@ == old(out)@ + decimal(n as nat),
    decreases n,
{
    if n >= 10 {
        push_decimal(out, n / 10);
    }
    let d = (n % 10) as u32;
    push_char(out, digit(d, false));
    assert(final(out)@ =~= old(out)@ + decimal(n as nat));
}

/// Appends `n` in hexadecimal.
fn push_hex(out: &mut String, n: u32, upper: bool)
    ensures
        final(out)@ == old(out)@ + hex(n as nat, upper),
    decreases n,
{
    if n >= 16 {
        push_hex(out, n / 16, upper);
    }
    push_char(out, digit(n % 16, upper));
    assert(final(out)@ =~= old(out)@ + hex(n as nat, upper));
}

/// Appends `n` in hexadecimal, with zeros in front up to `width` digits.
fn push_hex_padded(out: &mut String, n: u32, width: usize, upper: bool)
    ensures
        final(out)@ == old(out)@ + zero_padded(hex(n as nat, upper), width as nat),
{
    let mut digits = String::new();
    push_hex(&mut digits, n, upper);
    assert(digits@ =~= hex(n as nat, upper));
    let len = digits.as_str().unicode_len();
    let ghost start = out@;
    if len < width {
        let mut k: usize = 0;
        while k < width - len
            invariant
                k <= width - len,
                out@ == start + Seq::new(k as nat, |_i: int| '0'),
            decreases width - len - k,
        {
            push_char(out, '0');
            k = k + 1;
            assert(out@ =~= start + Seq::new(k as nat, |_i: int| '0'));
        }
    }
    out.append(digits.as_str());
    assert(out@ =~= start + zero_padded(hex(n as nat, upper), width as nat));
}

/// Appends how `c` stands inside a JSON string literal.
fn push_json_escaped_char(out: &mut String, c: char)
    ensures
        final(out)@ == old(out)@ + json_escaped_char(c),
{
    if c == '"' {
        out.append("\\\"");
    } else if c == '\\' {
        out.append("\\\\");
    } else if c == '\n' {
        out.append("\\n");
    } else if c == '\r' {
        out.append("\\r");
    } else if c == '\t' {
        out.append("\\t");
    } else if c < ' ' || ('\u{7f}' <= c && c <= '\u{9f}') {
        let ghost before = out@;
        out.append("\\u");
        push_hex_padded(out, c as u32, 4, false);
        assert(out@ =~= before + json_escaped_char(c));
    } else {
        push_char(out, c);
        assert(out@ =~= old(out)@ + json_escaped_char(c));
    }
}

/// Appends `s` escaped for a JSON string literal.
fn push_json_escaped(out: &mut String, s: &str)
    ensures
        final(out)@ == old(out)@ + json_escaped(s@),
{
    let ghost start = out@;
    let ghost text = s@;
    assert(text.take(0) =~= Seq::<char>::empty());
    for c in it: s.chars()
        invariant
            it.seq() == text,
            text == s@,
            out@ == start + json_escaped(text.take(it.index() as int)),
    {
        let ghost k = it.index() as int;
        assert(text.take(k + 1).drop_last() =~= text.take(k));
        push_json_escaped_char(out, c);
        assert(out@ =~= start + json_escaped(text.take(k + 1)));
    }
    assert(text.take(text.len() as int) =~= text);
}

/// Escapes a string for embedding in a JSON string literal. DEL and the C1
/// controls are escaped too, so that the report never carries raw the
/// characters that a scan exists to neutralize.
pub fn json_escape(s: &str) -> (r: String)
    ensures
        r@ == json_escaped(s@),
{
    let mut out = String::new();
    push_json_escaped(&mut out, s);
    assert(out@ =~= json_escaped(s@));
    out
}

/// Makes the control characters of `s` visible: C0 controls and DEL become `\xXX`.
pub fn escape_for_display(s: &str) -> (r: String)
    ensures
        r@ == display_escaped(s@),
{
    let mut out = String::new();
    let ghost text = s@;
    assert(text.take(0) =~= Seq::<char>::empty());
    for c in it: s.chars()
        invariant
            it.seq() == text,
            text == s@,
            out@ == display_escaped(text.take(it.index() as int)),
    {
        let ghost k = it.index() as int;
        let ghost before = out@;
        assert(text.take(k + 1).drop_last() =~= text.take(k));
        if c < ' ' || c == '\u{7f}' {
            out.append("\\x");
            push_hex_padded(&mut out, c as u32, 2, false);
        } else {
            push_char(&mut out, c);
        }
        assert(out@ =~= before + display_escaped_char(c));
        assert(out@ =~= display_escaped(text.take(k + 1)));
    }
    assert(text.take(text.len() as int) =~= text);
    out
}

/// The report line for a violation, e.g. `byte 12: disallowed OSC sequence (\x1b]0;evil\x07)`.
pub fn describe(v: &Violation) -> (r: String)
    ensures
        r@ == description(v@),
{
    let mut out = String::new();
    out.append("byte ");
    match v {
        Violation::DisallowedSequence { kind, offset, bytes } => {
            push_decimal(&mut out, *offset);
            out.append(": disallowed ");
            out.append(kind.label().as_str());
            out.append(" sequence (");
            out.append(escape_for_display(bytes.as_str()).as_str());
            out.append(")");
        },
        Violation::UnterminatedSequence { kind, offset } => {
            push_decimal(&mut out, *offset);
            out.append(": unterminated ");
            out.append(kind.label().as_str());
            out.append(" sequence");
        },
        Violation::BareEscape { offset } => {
            push_decimal(&mut out, *offset);
            out.append(": bare escape with no valid sequence following");
        },
        Violation::RawC1Control { offset, codepoint } => {
            push_decimal(&mut out, *offset);
            out.append(": raw C1 control character U+");
            push_hex_padded(&mut out, *codepoint, 4, true);
        },
    }
    assert(out@ =~= description(v@));
    out
}

/// The JSON object for a violation.
pub fn violation_to_json(v: &Violation) -> (r: String)
    ensures
        r@ == violation_json(v@),
{
    let mut out = String::new();
    match v {
        Violation::DisallowedSequence { kind, offset, bytes } => {
            out.append("{\"type\":\"disallowed_sequence\",\"kind\":\"");
            out.append(kind.label().as_str());
            out.append("\",\"offset\":");
            push_decimal(&mut out, *offset);
            out.append(",\"bytes\":\"");
            push_json_escaped(&mut out, bytes.as_str());
            out.append("\"}");
        },
        Violation::UnterminatedSequence { kind, offset } => {
            out.append("{\"type\":\"unterminated_sequence\",\"kind\":\"");
            out.append(kind.label().as_str());
            out.append("\",\"offset\":");
            push_decimal(&mut out, *offset);
            out.append("}");
        },
        Violation::BareEscape { offset } => {
            out.append("{\"type\":\"bare_escape\",\"offset\":");
            push_decimal(&mut out, *offset);
            out.append("}");
        },
        Violation::RawC1Control { offset, codepoint } => {
            out.append("{\"type\":\"raw_c1_control\",\"offset\":");
            push_decimal(&mut out, *offset);
            out.append(",\"codepoint\":");
            push_decimal(&mut out, *codepoint as usize);
            out.append("}");
        },
    }
    assert(out@ =~= violation_json(v@));
    out
}

/// Builds a single-line JSON report: `sanitized` is the cleaned text and
/// `violations` lists what was flagged (left empty when `quiet`).
pub fn render_json_report(result: &ScanResult, quiet: bool) -> (r: String)
    ensures
        r@ == json_report(result.sanitized@, violation_views(result.violations@), quiet),
{
    let ghost vs = violation_views(result.violations@);
    let mut out = String::new();
    out.append("{\"clean\":");
    if result.is_clean() {
        out.append("true");
    } else {
        out.append("false");
    }
    out.append(",\"sanitized\":\"");
    push_json_escaped(&mut out, result.sanitized.as_str());
    out.append("\",\"violations\":[");
    let ghost head = out@;
    if !quiet {
        let n = result.violations.len();
        let mut idx: usize = 0;
        while idx < n
            invariant
                n == result.violations@.len(),
                vs == violation_views(result.violations@),
                idx <= n,
                out@ == head + violations_json(vs.take(idx as int)),
            decreases n - idx,
        {
            let ghost before = out@;
            if idx > 0 {
                push_char(&mut out, ',');
            }
            out.append(violation_to_json(&result.violations[idx]).as_str());
            proof {
                let t = vs.take(idx + 1);
                assert(t.drop_last() =~= vs.take(idx as int));
                assert(t.last() == result.violations@[idx as int]@);
                if idx == 0 {
                    assert(out@ =~= head + violations_json(t));
                } else {
                    assert(","@ =~= seq![',']) by {
                        reveal_strlit(",");
                    }
                    assert(out@ =~= head + violations_json(t));
                }
            }
            idx = idx + 1;
        }
        assert(vs.take(n as int) =~= vs);
    } else {
        assert(out@ =~= head + Seq::<char>::empty());
    }
    out.append("]}");
    assert(out@ =~= json_report(result.sanitized@, vs, quiet));
    out
}

} // verus!
