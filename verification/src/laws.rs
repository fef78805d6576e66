//! What holds of every scan: the laws of the library, proved over the
//! grammar of [`crate::grammar`] that the contract of [`crate::scan`] uses.
use vstd::prelude::*;

use crate::grammar::{
    is_c1, is_csi_body, lemma_csi_body_end, lemma_csi_body_end_at, lemma_string_stop,
    lemma_string_stop_at, lemma_token_end_bounds, lex, opt_seq, sanitized_text, scan_output,
    scan_violations, string_kind, string_stop, csi_body_end, token_end, token_output,
    token_violation, token_violation_at, violations_in, byte_offset, Lexeme, ESC,
};
use crate::model::{kind_label, SequenceKind, ViolationView};
use crate::report::{
    decimal, description, digit_char, display_escaped, hex, hex4_value, hex_digit_value, json_escaped, json_escaped_char,
    json_report, json_string_body, json_string_literal, prepend_char, violation_json,
    violations_json, zero_padded,
};
use crate::text::lemma_byte_offset_step;

verus! {

/// A token that a scan may keep: one that is complete in itself.
pub open spec fn is_closed(l: Lexeme) -> bool {
    l is Text || l is C1Control || l is Sgr || l is Disallowed
}

/// Broken sequences are dropped under every policy: a token flagged as
/// unterminated or as a bare escape contributes nothing to the sanitized text.
pub proof fn law_broken_sequences_always_dropped(s: Seq<char>, i: int, lenient: bool)
    requires
        0 <= i < s.len(),
        token_violation(s, i) is Some,
        token_violation(s, i)->0.is_broken(),
    ensures
        token_output(s, i, lenient).len() == 0,
{
}

/// A token that starts with `ESC` ends past it and within the text; a scan
/// reports at most one finding for it, at the byte position it is given,
/// and keeps either nothing of it or all of its text.
pub proof fn law_escape_token_frame(s: Seq<char>, i: int, offset: nat, lenient: bool)
    requires
        0 <= i < s.len(),
        s[i] == ESC,
    ensures
        i < token_end(s, i) <= s.len(),
        opt_seq(token_violation_at(s, i, offset)).len() <= 1,
        token_violation_at(s, i, offset) matches Some(v) ==> v.offset() == offset,
        token_output(s, i, lenient) == Seq::<char>::empty() || token_output(s, i, lenient)
            == s.subrange(i, token_end(s, i)),
{
    lemma_token_end_bounds(s, i);
}

/// A CSI token (`ESC [`) ends after its introducer and within the text, and
/// everything between the introducer and its last character is a parameter
/// or intermediate character (U+0020 to U+003F). A scan reports at most one
/// finding for it, at the byte position it is given, and keeps either
/// nothing of it or all of its text.
pub proof fn law_csi_token_frame(s: Seq<char>, i: int, offset: nat, lenient: bool)
    requires
        0 <= i,
        i + 1 < s.len(),
        s[i] == ESC,
        s[i + 1] == '[',
    ensures
        i + 2 <= token_end(s, i) <= s.len(),
        forall|k: int| i + 2 <= k < token_end(s, i) - 1 ==> ' ' <= #[trigger] s[k] && s[k] <= '?',
        opt_seq(token_violation_at(s, i, offset)).len() <= 1,
        token_violation_at(s, i, offset) matches Some(v) ==> v.offset() == offset,
        token_output(s, i, lenient) == Seq::<char>::empty() || token_output(s, i, lenient)
            == s.subrange(i, token_end(s, i)),
{
    lemma_token_end_bounds(s, i);
    lemma_csi_body_end(s, i + 2);
    assert forall|k: int| i + 2 <= k < token_end(s, i) - 1 implies ' ' <= #[trigger] s[k] && s[k]
        <= '?' by {
        assert(is_csi_body(s[k]));
    }
}

/// Scanning the text `p + r` from a position inside `r` reads the same
/// token as scanning `r` from the matching position.
proof fn lemma_lex_shift(p: Seq<char>, r: Seq<char>, j: int)
    requires
        0 <= j < r.len(),
    ensures
        lex(p + r, p.len() + j).0 == lex(r, j).0,
        lex(p + r, p.len() + j).1 == p.len() + lex(r, j).1,
{
    let x = p + r;
    let n = p.len();
    assert(x[n + j] == r[j]);
    if j + 1 < r.len() {
        assert(x[n + j + 1] == r[j + 1]);
    }
    if r[j] == ESC && j + 1 < r.len() {
        lemma_csi_body_end(r, j + 2);
        let b = csi_body_end(r, j + 2);
        assert forall|k: int| n + j + 2 <= k < n + b implies is_csi_body(#[trigger] x[k]) by {
            assert(x[k] == r[k - n]);
        }
        if b < r.len() {
            assert(x[n + b] == r[b]);
        }
        lemma_csi_body_end_at(x, n + j + 2, n + b);
        if b > j + 2 {
            assert(x[n + j + 2] == r[j + 2]);
        }
        lemma_string_stop(r, j + 2);
        let t = string_stop(r, j + 2);
        assert forall|k: int| n + j + 2 <= k < n + t implies !crate::grammar::is_string_stop(
            #[trigger] x[k],
        ) by {
            assert(x[k] == r[k - n]);
        }
        if t < r.len() {
            assert(x[n + t] == r[t]);
        }
        if t + 1 < r.len() {
            assert(x[n + t + 1] == r[t + 1]);
        }
        lemma_string_stop_at(x, n + j + 2, n + t);
    }
}

/// Scanning `p + r` from position `p.len() + j` keeps what scanning `r` from
/// `j` keeps, and flags as many things.
proof fn lemma_scan_shift(p: Seq<char>, r: Seq<char>, j: int, lenient: bool)
    requires
        0 <= j <= r.len(),
    ensures
        scan_output(p + r, p.len() + j, lenient) == scan_output(r, j, lenient),
        scan_violations(p + r, p.len() + j).len() == scan_violations(r, j).len(),
    decreases r.len() - j,
{
    let x = p + r;
    let n = p.len();
    if j < r.len() {
        lemma_lex_shift(p, r, j);
        lemma_token_end_bounds(r, j);
        let e = token_end(r, j);
        lemma_scan_shift(p, r, e, lenient);
        assert(x.subrange(n + j, n + e) =~= r.subrange(j, e));
        assert(token_output(x, n + j, lenient) == token_output(r, j, lenient));
        assert(opt_seq(token_violation(x, n + j)).len() == opt_seq(token_violation(r, j)).len());
    }
}

/// A complete token reads the same wherever its characters stand: a text
/// that begins with them begins with the same token.
proof fn lemma_lex_prefix(s: Seq<char>, i: int, x: Seq<char>)
    requires
        0 <= i < s.len(),
        is_closed(lex(s, i).0),
        x.len() >= token_end(s, i) - i,
        forall|k: int| 0 <= k < token_end(s, i) - i ==> x[k] == #[trigger] s[i + k],
    ensures
        lex(x, 0).0 == lex(s, i).0,
        lex(x, 0).1 == token_end(s, i) - i,
{
    lemma_token_end_bounds(s, i);
    let e = token_end(s, i);
    assert(x[0] == s[i + 0]);
    if s[i] == ESC {
        assert(e - i >= 2);
        assert(x[1] == s[i + 1]);
        if s[i + 1] == '[' {
            lemma_csi_body_end(s, i + 2);
            let b = csi_body_end(s, i + 2);
            assert forall|k: int| 2 <= k < b - i implies is_csi_body(#[trigger] x[k]) by {
                assert(x[k] == s[i + k]);
            }
            assert(x[b - i] == s[i + (b - i)]);
            lemma_csi_body_end_at(x, 2, b - i);
            if b > i + 2 {
                assert(x[2] == s[i + 2]);
            }
        } else if string_kind(s[i + 1]) is Some {
            lemma_string_stop(s, i + 2);
            let t = string_stop(s, i + 2);
            assert forall|k: int| 2 <= k < t - i implies !crate::grammar::is_string_stop(
                #[trigger] x[k],
            ) by {
                assert(x[k] == s[i + k]);
            }
            assert(x[t - i] == s[i + (t - i)]);
            lemma_string_stop_at(x, 2, t - i);
            if e == t + 2 {
                assert(x[t - i + 1] == s[i + (t - i + 1)]);
            }
        }
    }
}

/// What a scan keeps of a token is the text of the token itself.
proof fn lemma_kept_is_token_text(s: Seq<char>, i: int, lenient: bool)
    requires
        0 <= i < s.len(),
        token_output(s, i, lenient).len() > 0,
    ensures
        is_closed(lex(s, i).0),
        token_output(s, i, lenient) == s.subrange(i, token_end(s, i)),
        !lenient ==> (lex(s, i).0 is Text || lex(s, i).0 is Sgr),
{
}

/// Scanning what a scan kept, from position `i` on, keeps all of it.
proof fn lemma_rescan_output(s: Seq<char>, i: int, lenient: bool)
    requires
        0 <= i <= s.len(),
    ensures
        scan_output(scan_output(s, i, lenient), 0, lenient) == scan_output(s, i, lenient),
        !lenient ==> scan_violations(scan_output(s, i, lenient), 0).len() == 0,
    decreases s.len() - i,
{
    if i < s.len() {
        lemma_token_end_bounds(s, i);
        let e = token_end(s, i);
        let tok = token_output(s, i, lenient);
        let rest = scan_output(s, e, lenient);
        lemma_rescan_output(s, e, lenient);
        assert(scan_output(s, i, lenient) == tok + rest);
        if tok.len() == 0 {
            assert(tok + rest =~= rest);
        } else {
            lemma_kept_is_token_text(s, i, lenient);
            let x = tok + rest;
            assert forall|k: int| 0 <= k < e - i implies x[k] == #[trigger] s[i + k] by {
                assert(x[k] == tok[k]);
            }
            lemma_lex_prefix(s, i, x);
            assert(x.subrange(0, e - i) =~= tok);
            assert(token_output(x, 0, lenient) == tok);
            lemma_scan_shift(tok, rest, 0, lenient);
            assert(scan_output(x, 0, lenient) == tok + scan_output(x, e - i, lenient));
        }
    } else {
        assert(scan_output(s, i, lenient) =~= Seq::<char>::empty());
    }
}

/// Sanitizing is stable: scanning the sanitized text under the same policy
/// gives back the sanitized text unchanged.
pub proof fn law_sanitize_is_idempotent(s: Seq<char>, lenient: bool)
    ensures
        sanitized_text(sanitized_text(s, lenient), lenient) == sanitized_text(s, lenient),
{
    lemma_rescan_output(s, 0, lenient);
}

/// Under the strict policy the sanitized text is clean: scanning it again
/// flags nothing.
pub proof fn law_strict_output_is_clean(s: Seq<char>)
    ensures
        violations_in(sanitized_text(s, false)).len() == 0,
{
    lemma_rescan_output(s, 0, false);
}

/// A scan that drops nothing returns its input: from position `i` on, when
/// no token is broken and, under the strict policy, none is flagged.
proof fn lemma_output_is_input(s: Seq<char>, i: int, lenient: bool)
    requires
        0 <= i <= s.len(),
        forall|k: int|
            0 <= k < scan_violations(s, i).len() ==> !(#[trigger] scan_violations(s, i)[k]).is_broken(),
        lenient || scan_violations(s, i).len() == 0,
    ensures
        scan_output(s, i, lenient) == s.subrange(i, s.len() as int),
    decreases s.len() - i,
{
    if i < s.len() {
        lemma_token_end_bounds(s, i);
        let e = token_end(s, i);
        let v = opt_seq(token_violation(s, i));
        let rest = scan_violations(s, e);
        assert(scan_violations(s, i) == v + rest);
        assert forall|k: int| 0 <= k < rest.len() implies !(#[trigger] rest[k]).is_broken() by {
            assert(rest[k] == scan_violations(s, i)[v.len() + k]);
        }
        if v.len() > 0 {
            assert(scan_violations(s, i)[0] == v[0]);
        }
        lemma_output_is_input(s, e, lenient);
        assert(s.subrange(i, e) + s.subrange(e, s.len() as int) =~= s.subrange(i, s.len() as int));
    } else {
        assert(s.subrange(i, s.len() as int) =~= Seq::<char>::empty());
    }
}

/// A clean scan returns the text it was given, under either policy.
pub proof fn law_clean_scan_keeps_text(s: Seq<char>, lenient: bool)
    requires
        violations_in(s).len() == 0,
    ensures
        sanitized_text(s, lenient) == s,
{
    lemma_output_is_input(s, 0, lenient);
    assert(s.subrange(0, s.len() as int) =~= s);
}

/// Under the lenient policy only broken sequences are removed: when no
/// flagged sequence is unterminated or a bare escape, the text comes back
/// unchanged.
pub proof fn law_lenient_drops_only_broken(s: Seq<char>)
    requires
        forall|k: int| 0 <= k < violations_in(s).len() ==> !(#[trigger] violations_in(s)[k]).is_broken(),
    ensures
        sanitized_text(s, true) == s,
{
    assert forall|k: int| 0 <= k < scan_violations(s, 0).len() implies !(
    #[trigger] scan_violations(s, 0)[k]).is_broken() by {
        assert(violations_in(s)[k] == scan_violations(s, 0)[k]);
    }
    lemma_output_is_input(s, 0, true);
    assert(s.subrange(0, s.len() as int) =~= s);
}

/// From position `i` on, the strict output holds no C1 control character.
proof fn lemma_strict_output_no_c1(s: Seq<char>, i: int)
    requires
        0 <= i <= s.len(),
    ensures
        forall|k: int| 0 <= k < scan_output(s, i, false).len() ==> !is_c1(#[trigger] scan_output(s, i, false)[k]),
    decreases s.len() - i,
{
    if i < s.len() {
        lemma_token_end_bounds(s, i);
        let e = token_end(s, i);
        let tok = token_output(s, i, false);
        let rest = scan_output(s, e, false);
        lemma_strict_output_no_c1(s, e);
        assert(scan_output(s, i, false) == tok + rest);
        if tok.len() > 0 {
            lemma_kept_is_token_text(s, i, false);
            if s[i] == ESC {
                lemma_csi_body_end(s, i + 2);
            }
            assert forall|k: int| 0 <= k < tok.len() implies !is_c1(#[trigger] tok[k]) by {
                assert(tok[k] == s[i + k]);
            }
        }
        assert forall|k: int| 0 <= k < (tok + rest).len() implies !is_c1(#[trigger] (tok + rest)[k]) by {
            if k < tok.len() {
                assert((tok + rest)[k] == tok[k]);
            } else {
                assert((tok + rest)[k] == rest[k - tok.len()]);
            }
        }
    }
}

/// Under the strict policy no raw C1 control character survives.
pub proof fn law_strict_output_has_no_c1(s: Seq<char>)
    ensures
        forall|k: int| 0 <= k < sanitized_text(s, false).len() ==> !is_c1(#[trigger] sanitized_text(s, false)[k]),
{
    lemma_strict_output_no_c1(s, 0);
}

/// A text in which no character is a raw C1 control and every `ESC`
/// begins a plain SGR sequence.
pub open spec fn only_text_and_sgr(s: Seq<char>) -> bool {
    forall|k: int|
        0 <= k < s.len() ==> !is_c1(#[trigger] s[k]) && (s[k] == ESC ==> lex(s, k).0 is Sgr)
}

/// From position `i` on, a text of plain characters and SGR sequences flags nothing.
proof fn lemma_text_and_sgr_is_clean(s: Seq<char>, i: int)
    requires
        0 <= i <= s.len(),
        only_text_and_sgr(s),
    ensures
        scan_violations(s, i).len() == 0,
    decreases s.len() - i,
{
    if i < s.len() {
        lemma_token_end_bounds(s, i);
        assert(!is_c1(s[i]));
        lemma_text_and_sgr_is_clean(s, token_end(s, i));
    }
}

/// From position `i` on, a text that flags nothing holds no raw C1 control,
/// and each of its escapes begins a plain SGR sequence.
proof fn lemma_clean_is_text_and_sgr(s: Seq<char>, i: int)
    requires
        0 <= i <= s.len(),
        scan_violations(s, i).len() == 0,
    ensures
        forall|k: int|
            i <= k < s.len() ==> !is_c1(#[trigger] s[k]) && (s[k] == ESC ==> lex(s, k).0 is Sgr),
    decreases s.len() - i,
{
    if i < s.len() {
        lemma_token_end_bounds(s, i);
        let e = token_end(s, i);
        assert(scan_violations(s, i) == opt_seq(token_violation(s, i)) + scan_violations(s, e));
        assert(token_violation(s, i) is None);
        lemma_clean_is_text_and_sgr(s, e);
        if s[i] == ESC {
            lemma_csi_body_end(s, i + 2);
        }
        assert forall|k: int| i <= k < s.len() implies !is_c1(#[trigger] s[k]) && (s[k] == ESC
            ==> lex(s, k).0 is Sgr) by {
            if k >= e {
            } else if k == i {
            } else if k == i + 1 {
            } else if k < e - 1 {
                assert(is_csi_body(s[k]));
            }
        }
    }
}

/// A text scans clean exactly when it holds no raw C1 control character and
/// every escape in it begins a plain SGR sequence.
pub proof fn law_clean_exactly_when_text_and_sgr(s: Seq<char>)
    ensures
        violations_in(s).len() == 0 <==> only_text_and_sgr(s),
{
    if violations_in(s).len() == 0 {
        lemma_clean_is_text_and_sgr(s, 0);
    }
    if only_text_and_sgr(s) {
        lemma_text_and_sgr_is_clean(s, 0);
    }
}

/// Under the strict policy the sanitized text holds no raw C1 control, and
/// every escape in it begins a plain SGR sequence.
pub proof fn law_strict_output_is_text_and_sgr(s: Seq<char>)
    ensures
        only_text_and_sgr(sanitized_text(s, false)),
{
    law_strict_output_is_clean(s);
    law_clean_exactly_when_text_and_sgr(sanitized_text(s, false));
}

/// Text that holds no escape and no C1 control character is clean and comes
/// back unchanged, under either policy.
pub proof fn law_plain_text_passes_unchanged(s: Seq<char>, lenient: bool)
    requires
        forall|k: int| 0 <= k < s.len() ==> #[trigger] s[k] != ESC && !is_c1(s[k]),
    ensures
        violations_in(s).len() == 0,
        sanitized_text(s, lenient) == s,
{
    lemma_text_and_sgr_is_clean(s, 0);
    law_clean_scan_keeps_text(s, lenient);
}

/// Later characters start at later byte positions.
proof fn lemma_byte_offset_increases(s: Seq<char>, i: int, j: int)
    requires
        0 <= i < j <= s.len(),
    ensures
        byte_offset(s, i) < byte_offset(s, j),
    decreases j - i,
{
    lemma_byte_offset_step(s, j - 1);
    if i < j - 1 {
        lemma_byte_offset_increases(s, i, j - 1);
    }
}

/// From position `i` on, violations come in the order of the text, each at
/// a byte position within it, at or after that of position `i`.
proof fn lemma_violation_offsets(s: Seq<char>, i: int)
    requires
        0 <= i <= s.len(),
    ensures
        forall|k: int|
            0 <= k < scan_violations(s, i).len() ==> byte_offset(s, i) <= (
            #[trigger] scan_violations(s, i)[k]).offset() < byte_offset(s, s.len() as int),
        forall|k1: int, k2: int|
            0 <= k1 < k2 < scan_violations(s, i).len() ==> (#[trigger] scan_violations(s, i)[k1]).offset()
                < (#[trigger] scan_violations(s, i)[k2]).offset(),
    decreases s.len() - i,
{
    if i < s.len() {
        lemma_token_end_bounds(s, i);
        let e = token_end(s, i);
        let v = opt_seq(token_violation(s, i));
        let rest = scan_violations(s, e);
        let all = scan_violations(s, i);
        lemma_violation_offsets(s, e);
        lemma_byte_offset_increases(s, i, e);
        if e < s.len() {
            lemma_byte_offset_increases(s, e, s.len() as int);
        }
        lemma_byte_offset_increases(s, i, s.len() as int);
        assert(all == v + rest);
        assert forall|k: int| 0 <= k < all.len() implies byte_offset(s, i) <= (
        #[trigger] all[k]).offset() < byte_offset(s, s.len() as int) by {
            if k < v.len() {
                assert(all[k] == v[k]);
            } else {
                assert(all[k] == rest[k - v.len()]);
            }
        }
        assert forall|k1: int, k2: int| 0 <= k1 < k2 < all.len() implies (#[trigger] all[k1]).offset()
            < (#[trigger] all[k2]).offset() by {
            assert(all[k2] == rest[k2 - v.len()]);
            if k1 < v.len() {
                assert(all[k1] == v[k1]);
            } else {
                assert(all[k1] == rest[k1 - v.len()]);
            }
        }
    }
}

/// Violations are reported in the order of the text: their byte offsets
/// strictly increase, and each lies within the UTF-8 form of the text.
pub proof fn law_violations_in_text_order(s: Seq<char>)
    ensures
        forall|k: int|
            0 <= k < violations_in(s).len() ==> (#[trigger] violations_in(s)[k]).offset()
                < byte_offset(s, s.len() as int),
        forall|k1: int, k2: int|
            0 <= k1 < k2 < violations_in(s).len() ==> (#[trigger] violations_in(s)[k1]).offset() < (
            #[trigger] violations_in(s)[k2]).offset(),
{
    lemma_violation_offsets(s, 0);
}

/// The finding `v` is about the text at character position `i`: its offset
/// is the byte position of that character, which is the `ESC` of a flagged
/// sequence (whose text, for a well-formed one, stands there) or the raw C1
/// control character itself.
pub open spec fn finding_starts_at(s: Seq<char>, v: ViolationView, i: int) -> bool {
    &&& 0 <= i < s.len()
    &&& v.offset() == byte_offset(s, i)
    &&& match v {
        ViolationView::DisallowedSequence { bytes, .. } => s[i] == ESC && i + bytes.len() <= s.len()
            && bytes == s.subrange(i, i + bytes.len()),
        ViolationView::UnterminatedSequence { .. } => s[i] == ESC,
        ViolationView::BareEscape { .. } => s[i] == ESC,
        ViolationView::RawC1Control { codepoint, .. } => is_c1(s[i]) && codepoint == s[i] as u32,
    }
}

/// The character positions, from `i` on, of the tokens that a scan flags,
/// in order: one for each finding.
pub open spec fn finding_positions(s: Seq<char>, i: int) -> Seq<int>
    decreases s.len() - i,
{
    if 0 <= i < s.len() {
        proof {
            lemma_token_end_bounds(s, i);
        }
        (if token_violation(s, i) is Some {
            seq![i]
        } else {
            Seq::empty()
        }) + finding_positions(s, token_end(s, i))
    } else {
        Seq::empty()
    }
}

/// From position `i` on, the `k`-th finding is about the character at the
/// `k`-th flagged position.
proof fn lemma_findings_located(s: Seq<char>, i: int)
    requires
        0 <= i <= s.len(),
    ensures
        finding_positions(s, i).len() == scan_violations(s, i).len(),
        forall|k: int|
            0 <= k < scan_violations(s, i).len() ==> finding_starts_at(
                s,
                #[trigger] scan_violations(s, i)[k],
                finding_positions(s, i)[k],
            ),
    decreases s.len() - i,
{
    if i < s.len() {
        lemma_token_end_bounds(s, i);
        let e = token_end(s, i);
        let v = opt_seq(token_violation(s, i));
        let p: Seq<int> = if token_violation(s, i) is Some {
            seq![i]
        } else {
            Seq::empty()
        };
        let rest = scan_violations(s, e);
        let all = scan_violations(s, i);
        lemma_findings_located(s, e);
        assert(all == v + rest);
        assert(finding_positions(s, i) == p + finding_positions(s, e));
        assert forall|k: int| 0 <= k < all.len() implies finding_starts_at(
            s,
            #[trigger] all[k],
            finding_positions(s, i)[k],
        ) by {
            if k < v.len() {
                assert(all[k] == v[0]);
                assert(finding_positions(s, i)[k] == i);
            } else {
                assert(all[k] == rest[k - v.len()]);
                assert(finding_positions(s, i)[k] == finding_positions(s, e)[k - v.len()]);
            }
        }
    }
}

/// Every finding points into the text: the `k`-th finding is about the
/// character at the `k`-th flagged position. Its offset is the byte position
/// of that character, which is an `ESC` or the raw C1 control character
/// itself, and a well-formed flagged sequence's text is what stands there.
pub proof fn law_findings_point_into_text(s: Seq<char>)
    ensures
        finding_positions(s, 0).len() == violations_in(s).len(),
        forall|k: int|
            0 <= k < violations_in(s).len() ==> finding_starts_at(
                s,
                #[trigger] violations_in(s)[k],
                finding_positions(s, 0)[k],
            ),
{
    lemma_findings_located(s, 0);
    assert forall|k: int| 0 <= k < violations_in(s).len() implies finding_starts_at(
        s,
        #[trigger] violations_in(s)[k],
        finding_positions(s, 0)[k],
    ) by {
        assert(violations_in(s)[k] == scan_violations(s, 0)[k]);
    }
}

/// A character that a JSON report never carries raw: a C0 control, DEL or a
/// C1 control.
pub open spec fn is_raw_control(c: char) -> bool {
    c < ' ' || ('\u{7f}' <= c && c <= '\u{9f}')
}

/// A text that holds no C0 control, DEL or C1 control character.
pub open spec fn free_of_raw_controls(s: Seq<char>) -> bool {
    forall|k: int| 0 <= k < s.len() ==> !is_raw_control(#[trigger] s[k])
}

/// Joining texts free of raw controls gives a text free of them.
proof fn lemma_free_concat(a: Seq<char>, b: Seq<char>)
    requires
        free_of_raw_controls(a),
        free_of_raw_controls(b),
    ensures
        free_of_raw_controls(a + b),
{
    assert forall|k: int| 0 <= k < (a + b).len() implies !is_raw_control(#[trigger] (a + b)[k]) by {
        if k < a.len() {
            assert((a + b)[k] == a[k]);
        } else {
            assert((a + b)[k] == b[k - a.len()]);
        }
    }
}

/// Digits are printable.
proof fn lemma_digit_printable(d: nat, upper: bool)
    requires
        d < 16,
    ensures
        !is_raw_control(digit_char(d, upper)),
{
}

/// Numbers are written with printable digits.
proof fn lemma_hex_decimal_printable(n: nat, upper: bool)
    ensures
        free_of_raw_controls(hex(n, upper)),
        free_of_raw_controls(decimal(n)),
    decreases n,
{
    lemma_digit_printable(n % 16, upper);
    lemma_digit_printable(n % 10, false);
    if n >= 16 {
        lemma_hex_decimal_printable(n / 16, upper);
    }
    if n >= 10 {
        lemma_hex_decimal_printable(n / 10, upper);
    }
}

/// Zero padding adds only printable characters.
proof fn lemma_padded_printable(digits: Seq<char>, width: nat)
    requires
        free_of_raw_controls(digits),
    ensures
        free_of_raw_controls(zero_padded(digits, width)),
{
    if digits.len() < width {
        lemma_free_concat(Seq::new((width - digits.len()) as nat, |_i: int| '0'), digits);
    }
}

/// The JSON escape of one character holds no raw control.
proof fn lemma_escaped_char_printable(c: char)
    ensures
        free_of_raw_controls(json_escaped_char(c)),
{
    reveal_strlit("\\\"");
    reveal_strlit("\\\\");
    reveal_strlit("\\n");
    reveal_strlit("\\r");
    reveal_strlit("\\t");
    reveal_strlit("\\u");
    lemma_hex_decimal_printable((c as u32) as nat, false);
    lemma_padded_printable(hex((c as u32) as nat, false), 4);
    lemma_free_concat("\\u"@, zero_padded(hex((c as u32) as nat, false), 4));
}

/// Escaping a text for JSON leaves no C0 control, DEL or C1 control in it.
pub proof fn law_json_escape_has_no_raw_controls(s: Seq<char>)
    ensures
        free_of_raw_controls(json_escaped(s)),
    decreases s.len(),
{
    if s.len() > 0 {
        law_json_escape_has_no_raw_controls(s.drop_last());
        lemma_escaped_char_printable(s.last());
        lemma_free_concat(json_escaped(s.drop_last()), json_escaped_char(s.last()));
    }
}

/// Every family name is printable.
proof fn lemma_label_printable(kind: crate::model::SequenceKind)
    ensures
        free_of_raw_controls(kind_label(kind)),
{
    reveal_strlit("CSI");
    reveal_strlit("OSC");
    reveal_strlit("DCS");
    reveal_strlit("SOS");
    reveal_strlit("PM");
    reveal_strlit("APC");
    reveal_strlit("simple");
}

/// The JSON object of a finding holds no raw control.
proof fn lemma_violation_json_printable(v: ViolationView)
    ensures
        free_of_raw_controls(violation_json(v)),
{
    reveal_strlit("{\"type\":\"disallowed_sequence\",\"kind\":\"");
    reveal_strlit("\",\"offset\":");
    reveal_strlit(",\"bytes\":\"");
    reveal_strlit("\"}");
    reveal_strlit("{\"type\":\"unterminated_sequence\",\"kind\":\"");
    reveal_strlit("}");
    reveal_strlit("{\"type\":\"bare_escape\",\"offset\":");
    reveal_strlit("{\"type\":\"raw_c1_control\",\"offset\":");
    reveal_strlit(",\"codepoint\":");
    match v {
        ViolationView::DisallowedSequence { kind, offset, bytes } => {
            lemma_label_printable(kind);
            lemma_hex_decimal_printable(offset, false);
            law_json_escape_has_no_raw_controls(bytes);
            let a = "{\"type\":\"disallowed_sequence\",\"kind\":\""@;
            let b = a + kind_label(kind);
            lemma_free_concat(a, kind_label(kind));
            let c = b + "\",\"offset\":"@;
            lemma_free_concat(b, "\",\"offset\":"@);
            let d = c + decimal(offset);
            lemma_free_concat(c, decimal(offset));
            let e = d + ",\"bytes\":\""@;
            lemma_free_concat(d, ",\"bytes\":\""@);
            let f = e + json_escaped(bytes);
            lemma_free_concat(e, json_escaped(bytes));
            lemma_free_concat(f, "\"}"@);
        },
        ViolationView::UnterminatedSequence { kind, offset } => {
            lemma_label_printable(kind);
            lemma_hex_decimal_printable(offset, false);
            let a = "{\"type\":\"unterminated_sequence\",\"kind\":\""@;
            let b = a + kind_label(kind);
            lemma_free_concat(a, kind_label(kind));
            let c = b + "\",\"offset\":"@;
            lemma_free_concat(b, "\",\"offset\":"@);
            let d = c + decimal(offset);
            lemma_free_concat(c, decimal(offset));
            lemma_free_concat(d, "}"@);
        },
        ViolationView::BareEscape { offset } => {
            lemma_hex_decimal_printable(offset, false);
            let a = "{\"type\":\"bare_escape\",\"offset\":"@;
            let d = a + decimal(offset);
            lemma_free_concat(a, decimal(offset));
            lemma_free_concat(d, "}"@);
        },
        ViolationView::RawC1Control { offset, codepoint } => {
            lemma_hex_decimal_printable(offset, false);
            lemma_hex_decimal_printable(codepoint as nat, false);
            let a = "{\"type\":\"raw_c1_control\",\"offset\":"@;
            let b = a + decimal(offset);
            lemma_free_concat(a, decimal(offset));
            let c = b + ",\"codepoint\":"@;
            lemma_free_concat(b, ",\"codepoint\":"@);
            let d = c + decimal(codepoint as nat);
            lemma_free_concat(c, decimal(codepoint as nat));
            lemma_free_concat(d, "}"@);
        },
    }
}

/// The JSON list of findings holds no raw control.
proof fn lemma_violations_json_printable(vs: Seq<ViolationView>)
    ensures
        free_of_raw_controls(violations_json(vs)),
    decreases vs.len(),
{
    reveal_strlit(",");
    if vs.len() == 1 {
        lemma_violation_json_printable(vs[0]);
    } else if vs.len() > 1 {
        lemma_violations_json_printable(vs.drop_last());
        lemma_violation_json_printable(vs.last());
        lemma_free_concat(violations_json(vs.drop_last()), ","@);
        lemma_free_concat(violations_json(vs.drop_last()) + ","@, violation_json(vs.last()));
    }
}

/// The JSON report carries no raw C0 control, DEL or C1 control character,
/// whatever the scanned text held.
pub proof fn law_json_report_has_no_raw_controls(
    sanitized: Seq<char>,
    vs: Seq<ViolationView>,
    quiet: bool,
)
    ensures
        free_of_raw_controls(json_report(sanitized, vs, quiet)),
{
    reveal_strlit("{\"clean\":");
    reveal_strlit("true");
    reveal_strlit("false");
    reveal_strlit(",\"sanitized\":\"");
    reveal_strlit("\",\"violations\":[");
    reveal_strlit("]}");
    law_json_escape_has_no_raw_controls(sanitized);
    lemma_violations_json_printable(vs);
    let a = "{\"clean\":"@;
    let flag = if vs.len() == 0 {
        "true"@
    } else {
        "false"@
    };
    let list = if quiet {
        Seq::<char>::empty()
    } else {
        violations_json(vs)
    };
    lemma_free_concat(a, flag);
    let b = a + flag + ",\"sanitized\":\""@;
    lemma_free_concat(a + flag, ",\"sanitized\":\""@);
    let c = b + json_escaped(sanitized);
    lemma_free_concat(b, json_escaped(sanitized));
    let d = c + "\",\"violations\":["@;
    lemma_free_concat(c, "\",\"violations\":["@);
    let e = d + list;
    lemma_free_concat(d, list);
    lemma_free_concat(e, "]}"@);
}

/// The escape of a text's first character followed by the escape of the rest.
proof fn lemma_json_escaped_front(s: Seq<char>)
    requires
        s.len() > 0,
    ensures
        json_escaped(s) == json_escaped_char(s[0]) + json_escaped(s.drop_first()),
    decreases s.len(),
{
    if s.len() == 1 {
        assert(s.drop_last() =~= Seq::<char>::empty());
        assert(s.drop_first() =~= Seq::<char>::empty());
        assert(json_escaped(s) =~= json_escaped_char(s[0]) + json_escaped(s.drop_first()));
    } else {
        lemma_json_escaped_front(s.drop_last());
        assert(s.drop_first().drop_last() =~= s.drop_last().drop_first());
        assert(s.drop_first().last() == s.last());
        assert(s.drop_last()[0] == s[0]);
        assert(json_escaped(s) =~= json_escaped_char(s[0]) + json_escaped(s.drop_first()));
    }
}

/// A digit written by [`digit_char`] reads back as its value.
proof fn lemma_hex_digit_round_trip(d: nat)
    requires
        d < 16,
    ensures
        hex_digit_value(digit_char(d, false)) == Some(d),
{
}

/// Decoding the escape of one character, followed by any text, gives the
/// character followed by what that text decodes to.
proof fn lemma_decode_escaped_char(c: char, rest: Seq<char>)
    ensures
        json_string_body(json_escaped_char(c) + rest) == prepend_char(c, json_string_body(rest)),
{
    let t = json_escaped_char(c) + rest;
    reveal_strlit("\\\"");
    reveal_strlit("\\\\");
    reveal_strlit("\\n");
    reveal_strlit("\\r");
    reveal_strlit("\\t");
    reveal_strlit("\\u");
    if c == '"' || c == '\\' || c == '\n' || c == '\r' || c == '\t' {
        assert(t.skip(2) =~= rest);
    } else if c < ' ' || ('\u{7f}' <= c && c <= '\u{9f}') {
        let n = (c as u32) as nat;
        assert(n < 256);
        lemma_hex_digit_round_trip(n / 16);
        lemma_hex_digit_round_trip(n % 16);
        lemma_hex_digit_round_trip(0);
        let padded = zero_padded(hex(n, false), 4);
        if n < 16 {
            assert(hex(n, false) =~= seq![digit_char(n, false)]);
            assert(padded =~= seq!['0', '0', '0', digit_char(n, false)]);
        } else {
            assert(hex(n / 16, false) =~= seq![digit_char(n / 16, false)]);
            assert(hex(n, false) =~= seq![digit_char(n / 16, false), digit_char(n % 16, false)]);
            assert(padded =~= seq!['0', '0', digit_char(n / 16, false), digit_char(n % 16, false)]);
        }
        assert(digit_char(0, false) == '0');
        assert(t[2] == padded[0]);
        assert(t[3] == padded[1]);
        assert(t[4] == padded[2]);
        assert(t[5] == padded[3]);
        assert(hex4_value(t, 2) == Some(n));
        vstd::utf8::char_u32_cast(c, c as u32);
        assert(t.skip(6) =~= rest);
    } else {
        assert(t.skip(1) =~= rest);
    }
}

/// Decoding what [`json_escaped`] makes of a text gives the text back.
proof fn lemma_json_escape_decodes(s: Seq<char>)
    ensures
        json_string_body(json_escaped(s)) == Some(s),
    decreases s.len(),
{
    if s.len() == 0 {
        assert(json_escaped(s) =~= Seq::<char>::empty());
    } else {
        lemma_json_escaped_front(s);
        lemma_json_escape_decodes(s.drop_first());
        lemma_decode_escaped_char(s[0], json_escaped(s.drop_first()));
        assert(seq![s[0]] + s.drop_first() =~= s);
    }
}

/// Escaping round-trips through JSON: read as a JSON string literal (RFC
/// 8259), the escaped text between two quotes gives back the original text.
pub proof fn law_json_escape_round_trip(s: Seq<char>)
    ensures
        json_string_literal(seq!['"'] + json_escaped(s) + seq!['"']) == Some(s),
{
    let t = seq!['"'] + json_escaped(s) + seq!['"'];
    assert(t.subrange(1, t.len() - 1) =~= json_escaped(s));
    lemma_json_escape_decodes(s);
}

/// A scan that starts with a token of `n` characters, flagged or not,
/// continues on the rest of the text as if the rest stood alone.
proof fn lemma_scan_after_token(t: Seq<char>, r: Seq<char>, lenient: bool)
    requires
        t.len() > 0,
        lex(t + r, 0).1 == t.len(),
    ensures
        sanitized_text(t + r, lenient) == token_output(t + r, 0, lenient) + sanitized_text(r, lenient),
        violations_in(t + r) == opt_seq(token_violation(t + r, 0)) + scan_violations(t + r, t.len() as int),
        violations_in(t + r).len() == opt_seq(token_violation(t + r, 0)).len() + violations_in(r).len(),
{
    lemma_scan_shift(t, r, 0, lenient);
    assert(scan_output(t + r, 0, lenient) == token_output(t + r, 0, lenient) + scan_output(
        t + r,
        t.len() as int,
        lenient,
    ));
}

/// Nothing comes before the first character.
proof fn lemma_byte_offset_zero(s: Seq<char>)
    ensures
        byte_offset(s, 0) == 0,
{
    assert(s.take(0) =~= Seq::<char>::empty());
}

/// `ESC` followed by any character from `0` to `~` other than the six that
/// introduce longer sequences (`[`, `]`, `P`, `X`, `^`, `_`) is a complete
/// two-character escape (such as `ESC 7`, `ESC 8` or `ESC c`): whatever
/// follows, the scan reports it first as a disallowed simple sequence at
/// byte 0 with exactly those two characters, drops it under the strict
/// policy, keeps it under the lenient one, and goes on with the rest as if
/// the rest stood alone.
pub proof fn law_two_character_escape(d: char, r: Seq<char>)
    requires
        '0' <= d && d <= '~',
        d != '[' && d != ']' && d != 'P' && d != 'X' && d != '^' && d != '_',
    ensures
        violations_in(seq![ESC, d] + r).len() == 1 + violations_in(r).len(),
        violations_in(seq![ESC, d] + r)[0] == (ViolationView::DisallowedSequence {
            kind: SequenceKind::Simple,
            offset: 0,
            bytes: seq![ESC, d],
        }),
        sanitized_text(seq![ESC, d] + r, false) == sanitized_text(r, false),
        sanitized_text(seq![ESC, d] + r, true) == seq![ESC, d] + sanitized_text(r, true),
{
    let t = seq![ESC, d];
    let x = t + r;
    assert(x[0] == ESC);
    assert(x[1] == d);
    assert(lex(x, 0).1 == 2);
    lemma_scan_after_token(t, r, false);
    lemma_scan_after_token(t, r, true);
    lemma_byte_offset_zero(x);
    assert(x.subrange(0, 2) =~= t);
}

/// A character that, as the first parameter, marks a CSI sequence private.
pub open spec fn is_private_first(c: char) -> bool {
    c == '<' || c == '=' || c == '>' || c == '?'
}

/// `ESC [`, then any run `p` of parameter and intermediate characters
/// (U+0020 to U+003F), then a final character `f` from `@` to `~`, is one
/// complete CSI sequence, never unterminated, whatever follows. It is plain
/// SGR exactly when `f` is `m` and `p` does not start with `<`, `=`, `>` or
/// `?`: then it is kept under both policies and flags nothing. Any other such
/// sequence is reported first as a disallowed CSI sequence at byte 0 with all
/// of its text, dropped under the strict policy and kept under the lenient
/// one. Either way the scan goes on with the rest as if it stood alone.
pub proof fn law_csi_sequence(p: Seq<char>, f: char, r: Seq<char>)
    requires
        forall|k: int| 0 <= k < p.len() ==> ' ' <= #[trigger] p[k] && p[k] <= '?',
        '@' <= f && f <= '~',
    ensures
        ({
            let t = seq![ESC, '['] + p + seq![f];
            let plain_sgr = f == 'm' && !(p.len() > 0 && is_private_first(p[0]));
            &&& sanitized_text(t + r, true) == t + sanitized_text(r, true)
            &&& sanitized_text(t + r, false) == (if plain_sgr {
                t
            } else {
                Seq::empty()
            }) + sanitized_text(r, false)
            &&& violations_in(t + r).len() == (if plain_sgr {
                0int
            } else {
                1int
            }) + violations_in(r).len()
            &&& !plain_sgr ==> violations_in(t + r)[0] == (ViolationView::DisallowedSequence {
                kind: SequenceKind::Csi,
                offset: 0,
                bytes: t,
            })
        }),
{
    let t = seq![ESC, '['] + p + seq![f];
    let x = t + r;
    let b = (2 + p.len()) as int;
    assert(x[0] == ESC);
    assert(x[1] == '[');
    assert forall|k: int| 2 <= k < b implies is_csi_body(#[trigger] x[k]) by {
        assert(x[k] == p[k - 2]);
    }
    assert(x[b] == f);
    lemma_csi_body_end_at(x, 2, b);
    if p.len() > 0 {
        assert(x[2] == p[0]);
    }
    assert(lex(x, 0).1 == t.len());
    lemma_scan_after_token(t, r, false);
    lemma_scan_after_token(t, r, true);
    lemma_byte_offset_zero(x);
    assert(x.subrange(0, t.len() as int) =~= t);
}

/// The names of the sequence families, one per family.
pub proof fn law_family_labels(kind: SequenceKind)
    ensures
        kind_label(kind) == match kind {
            SequenceKind::Csi => "CSI"@,
            SequenceKind::Osc => "OSC"@,
            SequenceKind::Dcs => "DCS"@,
            SequenceKind::Sos => "SOS"@,
            SequenceKind::Pm => "PM"@,
            SequenceKind::Apc => "APC"@,
            SequenceKind::Simple => "simple"@,
        },
{
}

/// Different families have different names.
proof fn lemma_labels_distinct(k1: SequenceKind, k2: SequenceKind)
    requires
        k1 != k2,
    ensures
        kind_label(k1) != kind_label(k2),
{
    reveal_strlit("CSI");
    reveal_strlit("OSC");
    reveal_strlit("DCS");
    reveal_strlit("SOS");
    reveal_strlit("PM");
    reveal_strlit("APC");
    reveal_strlit("simple");
    if kind_label(k1) == kind_label(k2) {
        assert(kind_label(k1).len() == kind_label(k2).len());
        assert(kind_label(k1)[0] == kind_label(k2)[0]);
        assert(kind_label(k1)[1] == kind_label(k2)[1]);
    }
}

/// Texts that share the same beginning and the same end differ where the
/// middles differ.
proof fn lemma_middle_determines(a: Seq<char>, m1: Seq<char>, m2: Seq<char>, z: Seq<char>)
    requires
        a + m1 + z == a + m2 + z,
    ensures
        m1 == m2,
{
    let l = a + m1 + z;
    assert((a + m1 + z).len() == a.len() + m1.len() + z.len());
    assert((a + m2 + z).len() == a.len() + m2.len() + z.len());
    assert(m1.len() == m2.len());
    assert(m1 =~= l.subrange(a.len() as int, (a.len() + m1.len()) as int));
    assert(m2 =~= (a + m2 + z).subrange(a.len() as int, (a.len() + m2.len()) as int));
}

/// The report line of an unterminated sequence gives its byte offset and
/// names its family: it reads `byte <offset>: unterminated <family>
/// sequence`, so sequences of different families get different lines.
pub proof fn law_unterminated_line_names_family(kind: SequenceKind, other: SequenceKind, offset: nat)
    ensures
        description(ViolationView::UnterminatedSequence { kind, offset }) == "byte "@ + decimal(offset)
            + ": unterminated "@ + kind_label(kind) + " sequence"@,
        kind != other ==> description(ViolationView::UnterminatedSequence { kind, offset })
            != description(ViolationView::UnterminatedSequence { kind: other, offset }),
{
    if kind != other {
        lemma_labels_distinct(kind, other);
        let a = "byte "@ + decimal(offset) + ": unterminated "@;
        if description(ViolationView::UnterminatedSequence { kind, offset }) == description(
            ViolationView::UnterminatedSequence { kind: other, offset },
        ) {
            lemma_middle_determines(a, kind_label(kind), kind_label(other), " sequence"@);
        }
    }
}

/// The report line of a disallowed sequence gives its byte offset and names
/// its family: it starts `byte <offset>: disallowed <family> sequence (`, so
/// sequences of different families with the same text get different lines.
pub proof fn law_disallowed_line_names_family(
    kind: SequenceKind,
    other: SequenceKind,
    offset: nat,
    bytes: Seq<char>,
)
    ensures
        description(ViolationView::DisallowedSequence { kind, offset, bytes }) == "byte "@ + decimal(
            offset,
        ) + ": disallowed "@ + kind_label(kind) + " sequence ("@ + display_escaped(bytes) + ")"@,
        kind != other ==> description(ViolationView::DisallowedSequence { kind, offset, bytes })
            != description(ViolationView::DisallowedSequence { kind: other, offset, bytes }),
{
    if kind != other {
        lemma_labels_distinct(kind, other);
        let a = "byte "@ + decimal(offset) + ": disallowed "@;
        let z = " sequence ("@ + display_escaped(bytes) + ")"@;
        let l1 = description(ViolationView::DisallowedSequence { kind, offset, bytes });
        let l2 = description(ViolationView::DisallowedSequence { kind: other, offset, bytes });
        assert(l1 =~= a + kind_label(kind) + z);
        assert(l2 =~= a + kind_label(other) + z);
        if l1 == l2 {
            lemma_middle_determines(a, kind_label(kind), kind_label(other), z);
        }
    }
}

/// The violations part of the JSON report lists every violation: adding a
/// violation to a non-empty list adds a comma and its JSON object at the end
/// of the list, and a single violation is listed as its object alone. So the
/// list holds one object per violation, in order.
pub proof fn law_json_report_lists_every_violation(
    sanitized: Seq<char>,
    vs: Seq<ViolationView>,
    v: ViolationView,
)
    ensures
        json_report(sanitized, seq![v], false) == "{\"clean\":false,\"sanitized\":\""@ + json_escaped(
            sanitized,
        ) + "\",\"violations\":["@ + violation_json(v) + "]}"@,
        vs.len() > 0 ==> ({
            let before = json_report(sanitized, vs, false);
            json_report(sanitized, vs.push(v), false) == before.subrange(0, before.len() - 2) + ","@
                + violation_json(v) + "]}"@
        }),
{
    reveal_strlit("]}");
    reveal_strlit("{\"clean\":");
    reveal_strlit("false");
    reveal_strlit(",\"sanitized\":\"");
    reveal_strlit("{\"clean\":false,\"sanitized\":\"");
    assert("{\"clean\":"@ + "false"@ + ",\"sanitized\":\""@ =~= "{\"clean\":false,\"sanitized\":\""@);
    assert(json_report(sanitized, seq![v], false) =~= "{\"clean\":false,\"sanitized\":\""@
        + json_escaped(sanitized) + "\",\"violations\":["@ + violation_json(v) + "]}"@);
    if vs.len() > 0 {
        let before = json_report(sanitized, vs, false);
        let head = "{\"clean\":"@ + "false"@ + ",\"sanitized\":\""@ + json_escaped(sanitized)
            + "\",\"violations\":["@;
        assert(before =~= head + violations_json(vs) + "]}"@);
        assert(before.subrange(0, before.len() - 2) =~= head + violations_json(vs));
        assert(vs.push(v).drop_last() =~= vs);
        assert(violations_json(vs.push(v)) == violations_json(vs) + ","@ + violation_json(v));
        assert(json_report(sanitized, vs.push(v), false) =~= before.subrange(0, before.len() - 2)
            + ","@ + violation_json(v) + "]}"@);
    }
}

} // verus!
