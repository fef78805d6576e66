//! The scanner: walks the characters of a text token by token, keeps what
//! the policy allows and reports the rest.
use vstd::prelude::*;
use vstd::string::StringExecFns;

use crate::grammar::{
    lemma_csi_body_end_at, lemma_string_stop_at, lemma_token_end_bounds, opt_seq, sanitized_text,
    scan_output, scan_violations, string_kind, token_end, token_output, token_violation, token_violation_at,
    violations_in, is_csi_body, is_param, is_private_marker, is_string_stop, BEL, ESC, ST,
};
use crate::model::{violation_views, Policy, ScanResult, SequenceKind, Violation};
use crate::text::{index_text, is_index_of, push_char, text_of};

verus! {

/// Scans `input` and returns the sanitized text plus a report of every
/// escape sequence that was not passed through untouched.
pub fn scan(input: &str, policy: &Policy) -> (r: ScanResult)
    ensures
        r.sanitized@ == sanitized_text(input@, policy.lenient),
        violation_views(r.violations@) == violations_in(input@),
{
    let chars = index_text(input);
    let ghost s = input@;
    let ghost lenient = policy.lenient;
    assert(text_of(chars@) =~= s);
    let mut out = String::new();
    let mut violations: Vec<Violation> = Vec::new();
    let mut i: usize = 0;

    while i < chars.len()
        invariant
            is_index_of(chars@, s),
            text_of(chars@) == s,
            lenient == policy.lenient,
            0 <= i <= chars@.len(),
            sanitized_text(s, lenient) == out@ + scan_output(s, i as int, lenient),
            violations_in(s) == violation_views(violations@) + scan_violations(s, i as int),
        decreases chars@.len() - i,
    {
        let (offset, ch) = chars[i];
        let ghost old_out = out@;
        let ghost old_viol = violation_views(violations@);
        proof {
            lemma_token_end_bounds(s, i as int);
        }
        let next;
        if ch == ESC {
            next = handle_escape(chars.as_slice(), i, offset, &mut out, &mut violations, policy);
        } else if '\u{80}' <= ch && ch <= '\u{9f}' {
            violations.push(Violation::RawC1Control { offset, codepoint: ch as u32 });
            if policy.lenient {
                push_char(&mut out, ch);
            }
            next = i + 1;
            proof {
                assert(violation_views(violations@) =~= old_viol + opt_seq(token_violation(s, i as int)));
                assert(s.subrange(i as int, i + 1) =~= seq![ch]);
                assert(out@ =~= old_out + token_output(s, i as int, lenient));
            }
        } else {
            push_char(&mut out, ch);
            next = i + 1;
            proof {
                assert(s.subrange(i as int, i + 1) =~= seq![ch]);
                assert(out@ =~= old_out + token_output(s, i as int, lenient));
                assert(violation_views(violations@) =~= old_viol + opt_seq(token_violation(s, i as int)));
            }
        }
        proof {
            assert(out@ + scan_output(s, next as int, lenient) =~= old_out + scan_output(s, i as int, lenient));
            assert(violation_views(violations@) + scan_violations(s, next as int)
                =~= old_viol + scan_violations(s, i as int));
        }
        i = next;
    }
    ScanResult { sanitized: out, violations }
}

/// Whether `c` is a CSI parameter character.
fn is_param_byte(c: char) -> (b: bool)
    ensures
        b == is_param(c),
{
    '0' <= c && c <= '?'
}

/// Whether `c` is a CSI intermediate character.
fn is_intermediate(c: char) -> (b: bool)
    ensures
        b == crate::grammar::is_intermediate(c),
{
    ' ' <= c && c <= '/'
}

/// Whether `c` ends a CSI sequence.
fn is_csi_final(c: char) -> (b: bool)
    ensures
        b == crate::grammar::is_csi_final(c),
{
    '@' <= c && c <= '~'
}

/// Whether `ESC` followed by `c` is a complete two-character escape.
fn is_simple_final(c: char) -> (b: bool)
    ensures
        b == crate::grammar::is_simple_final(c),
{
    '0' <= c && c <= '~' && c != '[' && c != ']' && c != 'P' && c != 'X' && c != '^' && c != '_'
}

/// The characters of `chars` from `start` up to `end`, as a string.
fn slice_to_string(chars: &[(usize, char)], start: usize, end: usize) -> (s: String)
    requires
        start <= end <= chars@.len(),
    ensures
        s@ == text_of(chars@).subrange(start as int, end as int),
{
    let mut s = String::new();
    let mut k = start;
    while k < end
        invariant
            start <= k <= end <= chars@.len(),
            s@ == text_of(chars@).subrange(start as int, k as int),
        decreases end - k,
    {
        push_char(&mut s, chars[k].1);
        k = k + 1;
        assert(s@ =~= text_of(chars@).subrange(start as int, k as int));
    }
    s
}

/// Handles the token that starts with the `ESC` at position `i` and returns
/// the position right after it.
fn handle_escape(
    chars: &[(usize, char)],
    i: usize,
    offset: usize,
    out: &mut String,
    violations: &mut Vec<Violation>,
    policy: &Policy,
) -> (next: usize)
    requires
        i < chars@.len(),
        text_of(chars@)[i as int] == ESC,
    ensures
        next == token_end(text_of(chars@), i as int),
        final(out)@ == old(out)@ + token_output(text_of(chars@), i as int, policy.lenient),
        violation_views(final(violations)@) == violation_views(old(violations)@) + opt_seq(
            token_violation_at(text_of(chars@), i as int, offset as nat),
        ),
{
    let ghost s = text_of(chars@);
    let ghost old_viol = violation_views(violations@);
    let ghost old_out = out@;
    let n = chars.len();
    if i + 1 < n {
        let c = chars[i + 1].1;
        if c == '[' {
            parse_csi(chars, i, offset, out, violations, policy)
        } else if c == ']' {
            parse_string_sequence(chars, i, offset, SequenceKind::Osc, out, violations, policy)
        } else if c == 'P' {
            parse_string_sequence(chars, i, offset, SequenceKind::Dcs, out, violations, policy)
        } else if c == 'X' {
            parse_string_sequence(chars, i, offset, SequenceKind::Sos, out, violations, policy)
        } else if c == '^' {
            parse_string_sequence(chars, i, offset, SequenceKind::Pm, out, violations, policy)
        } else if c == '_' {
            parse_string_sequence(chars, i, offset, SequenceKind::Apc, out, violations, policy)
        } else if is_simple_final(c) {
            let raw = slice_to_string(chars, i, i + 2);
            violations.push(
                Violation::DisallowedSequence { kind: SequenceKind::Simple, offset, bytes: raw.clone() },
            );
            if policy.lenient {
                out.append(raw.as_str());
            }
            assert(violation_views(violations@) =~= old_viol + opt_seq(token_violation_at(s, i as int, offset as nat)));
            i + 2
        } else {
            violations.push(Violation::BareEscape { offset });
            assert(violation_views(violations@) =~= old_viol + opt_seq(token_violation_at(s, i as int, offset as nat)));
            assert(out@ =~= old_out + token_output(s, i as int, policy.lenient));
            i + 1
        }
    } else {
        violations.push(Violation::BareEscape { offset });
        assert(violation_views(violations@) =~= old_viol + opt_seq(token_violation_at(s, i as int, offset as nat)));
        assert(out@ =~= old_out + token_output(s, i as int, policy.lenient));
        i + 1
    }
}

/// Handles the CSI sequence that starts at position `i` (`ESC [`) and
/// returns the position right after it.
fn parse_csi(
    chars: &[(usize, char)],
    i: usize,
    offset: usize,
    out: &mut String,
    violations: &mut Vec<Violation>,
    policy: &Policy,
) -> (next: usize)
    requires
        i + 1 < chars@.len(),
        text_of(chars@)[i as int] == ESC,
        text_of(chars@)[i + 1] == '[',
    ensures
        next == token_end(text_of(chars@), i as int),
        final(out)@ == old(out)@ + token_output(text_of(chars@), i as int, policy.lenient),
        violation_views(final(violations)@) == violation_views(old(violations)@) + opt_seq(
            token_violation_at(text_of(chars@), i as int, offset as nat),
        ),
{
    let ghost s = text_of(chars@);
    let ghost old_viol = violation_views(violations@);
    let ghost old_out = out@;
    let n = chars.len();
    let mut j = i + 2;
    let mut private = false;
    let mut first = true;

    while j < chars.len() && (is_param_byte(chars[j].1) || is_intermediate(chars[j].1))
        invariant
            s == text_of(chars@),
            i + 2 <= j <= chars@.len(),
            forall|k: int| i + 2 <= k < j ==> is_csi_body(#[trigger] s[k]),
            first == (j == i + 2),
            private == (j > i + 2 && is_private_marker(s[i + 2])),
        decreases chars@.len() - j,
    {
        let c = chars[j].1;
        if is_param_byte(c) {
            if first && (c == '<' || c == '=' || c == '>' || c == '?') {
                private = true;
            }
        }
        first = false;
        j = j + 1;
    }
    proof {
        lemma_csi_body_end_at(s, i + 2, j as int);
    }
    let body_end = j;
    let mut final_byte: Option<char> = None;
    if j < chars.len() && is_csi_final(chars[j].1) {
        final_byte = Some(chars[j].1);
        j = j + 1;
    }

    let raw = slice_to_string(chars, i, j);

    match final_byte {
        Some(f) => {
            if f == 'm' && !private {
                out.append(raw.as_str());
            } else {
                violations.push(
                    Violation::DisallowedSequence { kind: SequenceKind::Csi, offset, bytes: raw.clone() },
                );
                if policy.lenient {
                    out.append(raw.as_str());
                }
            }
        },
        None => {
            violations.push(Violation::UnterminatedSequence { kind: SequenceKind::Csi, offset });
        },
    }
    assert(violation_views(violations@) =~= old_viol + opt_seq(token_violation_at(s, i as int, offset as nat)));
    assert(out@ =~= old_out + token_output(s, i as int, policy.lenient));
    j
}

/// Handles the string sequence of family `kind` that starts at position `i`
/// (`ESC` and its introducer) and returns the position right after it. The
/// sequence ends with `BEL`, `ST` or `ESC \`.
fn parse_string_sequence(
    chars: &[(usize, char)],
    i: usize,
    offset: usize,
    kind: SequenceKind,
    out: &mut String,
    violations: &mut Vec<Violation>,
    policy: &Policy,
) -> (next: usize)
    requires
        i + 1 < chars@.len(),
        text_of(chars@)[i as int] == ESC,
        string_kind(text_of(chars@)[i + 1]) == Some(kind),
    ensures
        next == token_end(text_of(chars@), i as int),
        final(out)@ == old(out)@ + token_output(text_of(chars@), i as int, policy.lenient),
        violation_views(final(violations)@) == violation_views(old(violations)@) + opt_seq(
            token_violation_at(text_of(chars@), i as int, offset as nat),
        ),
{
    let ghost s = text_of(chars@);
    let ghost old_viol = violation_views(violations@);
    let ghost old_out = out@;
    let n = chars.len();
    let mut j = i + 2;

    while j < chars.len() && chars[j].1 != BEL && chars[j].1 != ST && chars[j].1 != ESC
        invariant
            s == text_of(chars@),
            i + 2 <= j <= chars@.len(),
            forall|k: int| i + 2 <= k < j ==> !is_string_stop(#[trigger] s[k]),
        decreases chars@.len() - j,
    {
        j = j + 1;
    }
    proof {
        lemma_string_stop_at(s, i + 2, j as int);
    }
    let mut terminated = false;
    if j < chars.len() && (chars[j].1 == BEL || chars[j].1 == ST) {
        j = j + 1;
        terminated = true;
    } else if j < n && j + 1 < n && chars[j].1 == ESC && chars[j + 1].1 == '\\' {
        j = j + 2;
        terminated = true;
    }

    let raw = slice_to_string(chars, i, j);

    if terminated {
        violations.push(Violation::DisallowedSequence { kind, offset, bytes: raw.clone() });
        if policy.lenient {
            out.append(raw.as_str());
        }
    } else {
        violations.push(Violation::UnterminatedSequence { kind, offset });
    }
    assert(violation_views(violations@) =~= old_viol + opt_seq(token_violation_at(s, i as int, offset as nat)));
    assert(out@ =~= old_out + token_output(s, i as int, policy.lenient));
    j
}

} // verus!
