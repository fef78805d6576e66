//! The lexical structure of terminal text, stated over the sequence of its
//! characters: where each token starts and ends, what it is, what a scan
//! keeps of it and what it reports about it.
use vstd::prelude::*;
use vstd::utf8::encode_utf8;

use crate::model::{SequenceKind, ViolationView};

verus! {

/// The escape character, `ESC` (U+001B).
pub const ESC: char = '\u{1b}';

/// The bell character, `BEL` (U+0007), one terminator of string sequences.
pub const BEL: char = '\u{07}';

/// The 8-bit string terminator `ST` (U+009C).
pub const ST: char = '\u{9c}';

/// A CSI parameter character (U+0030 to U+003F).
pub open spec fn is_param(c: char) -> bool {
    '0' <= c && c <= '?'
}

/// A CSI intermediate character (U+0020 to U+002F).
pub open spec fn is_intermediate(c: char) -> bool {
    ' ' <= c && c <= '/'
}

/// A character that may stand inside a CSI sequence, before its final byte.
pub open spec fn is_csi_body(c: char) -> bool {
    is_param(c) || is_intermediate(c)
}

/// A character that ends a CSI sequence (U+0040 to U+007E).
pub open spec fn is_csi_final(c: char) -> bool {
    '@' <= c && c <= '~'
}

/// A character that, right after `ESC`, makes a complete two-character escape.
pub open spec fn is_simple_final(c: char) -> bool {
    '0' <= c && c <= '~' && c != '[' && c != ']' && c != 'P' && c != 'X' && c != '^' && c != '_'
}

/// A raw C1 control character (U+0080 to U+009F).
pub open spec fn is_c1(c: char) -> bool {
    '\u{80}' <= c && c <= '\u{9f}'
}

/// A first parameter character that marks a private-mode CSI sequence.
pub open spec fn is_private_marker(c: char) -> bool {
    c == '<' || c == '=' || c == '>' || c == '?'
}

/// The string sequence that `ESC` followed by `c` introduces, if any.
pub open spec fn string_kind(c: char) -> Option<SequenceKind> {
    if c == ']' {
        Some(SequenceKind::Osc)
    } else if c == 'P' {
        Some(SequenceKind::Dcs)
    } else if c == 'X' {
        Some(SequenceKind::Sos)
    } else if c == '^' {
        Some(SequenceKind::Pm)
    } else if c == '_' {
        Some(SequenceKind::Apc)
    } else {
        None
    }
}

/// A character at which the body of a string sequence stops.
pub open spec fn is_string_stop(c: char) -> bool {
    c == BEL || c == ST || c == ESC
}

/// The end of the run of CSI body characters that starts at `j`.
pub open spec fn csi_body_end(s: Seq<char>, j: int) -> int
    decreases s.len() - j,
{
    if 0 <= j < s.len() && is_csi_body(s[j]) {
        csi_body_end(s, j + 1)
    } else {
        j
    }
}

/// The first position at or after `j` that holds `BEL`, `ST` or `ESC`
/// (the length of `s` when there is none).
pub open spec fn string_stop(s: Seq<char>, j: int) -> int
    decreases s.len() - j,
{
    if 0 <= j < s.len() && !is_string_stop(s[j]) {
        string_stop(s, j + 1)
    } else {
        j
    }
}

/// What a token is.
pub enum Lexeme {
    /// An ordinary character.
    Text,
    /// A raw C1 control character.
    C1Control,
    /// A CSI sequence that only sets colors and text attributes.
    Sgr,
    /// A well-formed sequence other than SGR.
    Disallowed(SequenceKind),
    /// A sequence that never reaches its terminator.
    Unterminated(SequenceKind),
    /// An `ESC` that begins no recognized sequence.
    BareEscape,
}

/// The CSI token that starts at `i` (where `s[i]` is `ESC` and `s[i + 1]` is `[`),
/// with the position just after it.
pub open spec fn lex_csi(s: Seq<char>, i: int) -> (Lexeme, int) {
    let b = csi_body_end(s, i + 2);
    if b < s.len() && is_csi_final(s[b]) {
        let private = b > i + 2 && is_private_marker(s[i + 2]);
        if s[b] == 'm' && !private {
            (Lexeme::Sgr, b + 1)
        } else {
            (Lexeme::Disallowed(SequenceKind::Csi), b + 1)
        }
    } else {
        (Lexeme::Unterminated(SequenceKind::Csi), b)
    }
}

/// The string-sequence token of family `kind` that starts at `i`, with the
/// position just after it. It ends with `BEL`, `ST` or `ESC \`; an `ESC` that
/// begins anything else cuts it short, unterminated, before that `ESC`.
pub open spec fn lex_string(s: Seq<char>, i: int, kind: SequenceKind) -> (Lexeme, int) {
    let t = string_stop(s, i + 2);
    if t < s.len() && (s[t] == BEL || s[t] == ST) {
        (Lexeme::Disallowed(kind), t + 1)
    } else if t + 1 < s.len() && s[t] == ESC && s[t + 1] == '\\' {
        (Lexeme::Disallowed(kind), t + 2)
    } else {
        (Lexeme::Unterminated(kind), t)
    }
}

/// The token that starts at position `i`, and the position just after it.
pub open spec fn lex(s: Seq<char>, i: int) -> (Lexeme, int) {
    if s[i] == ESC {
        if i + 1 < s.len() {
            let d = s[i + 1];
            if d == '[' {
                lex_csi(s, i)
            } else if string_kind(d) is Some {
                lex_string(s, i, string_kind(d)->0)
            } else if is_simple_final(d) {
                (Lexeme::Disallowed(SequenceKind::Simple), i + 2)
            } else {
                (Lexeme::BareEscape, i + 1)
            }
        } else {
            (Lexeme::BareEscape, i + 1)
        }
    } else if is_c1(s[i]) {
        (Lexeme::C1Control, i + 1)
    } else {
        (Lexeme::Text, i + 1)
    }
}

/// The position just after the token that starts at `i`.
pub open spec fn token_end(s: Seq<char>, i: int) -> int {
    lex(s, i).1
}

/// What a scan keeps of the token that starts at `i`.
pub open spec fn token_output(s: Seq<char>, i: int, lenient: bool) -> Seq<char> {
    let e = token_end(s, i);
    match lex(s, i).0 {
        Lexeme::Text => s.subrange(i, e),
        Lexeme::Sgr => s.subrange(i, e),
        Lexeme::C1Control => if lenient { s.subrange(i, e) } else { Seq::empty() },
        Lexeme::Disallowed(_) => if lenient { s.subrange(i, e) } else { Seq::empty() },
        Lexeme::Unterminated(_) => Seq::empty(),
        Lexeme::BareEscape => Seq::empty(),
    }
}

/// The number of bytes that the first `i` characters of `s` take in UTF-8.
pub open spec fn byte_offset(s: Seq<char>, i: int) -> nat {
    encode_utf8(s.take(i)).len()
}

/// What a scan reports about the token that starts at `i`, placing the
/// finding at byte position `offset`.
pub open spec fn token_violation_at(s: Seq<char>, i: int, offset: nat) -> Option<ViolationView> {
    let e = token_end(s, i);
    match lex(s, i).0 {
        Lexeme::Text => None,
        Lexeme::Sgr => None,
        Lexeme::C1Control => Some(ViolationView::RawC1Control { offset, codepoint: s[i] as u32 }),
        Lexeme::Disallowed(kind) => Some(
            ViolationView::DisallowedSequence { kind, offset, bytes: s.subrange(i, e) },
        ),
        Lexeme::Unterminated(kind) => Some(ViolationView::UnterminatedSequence { kind, offset }),
        Lexeme::BareEscape => Some(ViolationView::BareEscape { offset }),
    }
}

/// What a scan reports about the token that starts at `i`, at the byte
/// position where that token starts.
pub open spec fn token_violation(s: Seq<char>, i: int) -> Option<ViolationView> {
    token_violation_at(s, i, byte_offset(s, i))
}

/// The sequence holding the value of `o`, if any.
pub open spec fn opt_seq<A>(o: Option<A>) -> Seq<A> {
    match o {
        Some(a) => seq![a],
        None => Seq::empty(),
    }
}

/// The sanitized text of the tokens from position `i` on.
pub open spec fn scan_output(s: Seq<char>, i: int, lenient: bool) -> Seq<char>
    decreases s.len() - i,
{
    if 0 <= i < s.len() {
        proof {
            lemma_token_end_bounds(s, i);
        }
        token_output(s, i, lenient) + scan_output(s, token_end(s, i), lenient)
    } else {
        Seq::empty()
    }
}

/// The violations of the tokens from position `i` on, in order.
pub open spec fn scan_violations(s: Seq<char>, i: int) -> Seq<ViolationView>
    decreases s.len() - i,
{
    if 0 <= i < s.len() {
        proof {
            lemma_token_end_bounds(s, i);
        }
        opt_seq(token_violation(s, i)) + scan_violations(s, token_end(s, i))
    } else {
        Seq::empty()
    }
}

/// The text that scanning `s` under the given policy leaves.
pub open spec fn sanitized_text(s: Seq<char>, lenient: bool) -> Seq<char> {
    scan_output(s, 0, lenient)
}

/// Everything that scanning `s` flags, in the order of the text.
pub open spec fn violations_in(s: Seq<char>) -> Seq<ViolationView> {
    scan_violations(s, 0)
}

/// The run of CSI body characters from `j` ends within `s`, covers only body
/// characters, and stops at the first character that is not one.
pub proof fn lemma_csi_body_end(s: Seq<char>, j: int)
    requires
        0 <= j <= s.len(),
    ensures
        j <= csi_body_end(s, j) <= s.len(),
        forall|k: int| j <= k < csi_body_end(s, j) ==> is_csi_body(#[trigger] s[k]),
        csi_body_end(s, j) < s.len() ==> !is_csi_body(s[csi_body_end(s, j)]),
    decreases s.len() - j,
{
    if j < s.len() && is_csi_body(s[j]) {
        lemma_csi_body_end(s, j + 1);
    }
}

/// The run of CSI body characters from `j` ends at the first character, at
/// or after `j`, that is not one.
pub proof fn lemma_csi_body_end_at(s: Seq<char>, j: int, b: int)
    requires
        0 <= j <= b <= s.len(),
        forall|k: int| j <= k < b ==> is_csi_body(#[trigger] s[k]),
        b < s.len() ==> !is_csi_body(s[b]),
    ensures
        csi_body_end(s, j) == b,
    decreases b - j,
{
    if j < b {
        lemma_csi_body_end_at(s, j + 1, b);
    }
}

/// The search for a string stop from `j` ends within `s`, passes only other
/// characters, and stops at the first stop.
pub proof fn lemma_string_stop(s: Seq<char>, j: int)
    requires
        0 <= j <= s.len(),
    ensures
        j <= string_stop(s, j) <= s.len(),
        forall|k: int| j <= k < string_stop(s, j) ==> !is_string_stop(#[trigger] s[k]),
        string_stop(s, j) < s.len() ==> is_string_stop(s[string_stop(s, j)]),
    decreases s.len() - j,
{
    if j < s.len() && !is_string_stop(s[j]) {
        lemma_string_stop(s, j + 1);
    }
}

/// The search for a string stop from `j` ends at the first stop at or after `j`.
pub proof fn lemma_string_stop_at(s: Seq<char>, j: int, t: int)
    requires
        0 <= j <= t <= s.len(),
        forall|k: int| j <= k < t ==> !is_string_stop(#[trigger] s[k]),
        t < s.len() ==> is_string_stop(s[t]),
    ensures
        string_stop(s, j) == t,
    decreases t - j,
{
    if j < t {
        lemma_string_stop_at(s, j + 1, t);
    }
}

/// Every token covers at least one character and ends within the text.
pub proof fn lemma_token_end_bounds(s: Seq<char>, i: int)
    requires
        0 <= i < s.len(),
    ensures
        i < token_end(s, i) <= s.len(),
{
    if s[i] == ESC && i + 1 < s.len() {
        lemma_csi_body_end(s, i + 2);
        lemma_string_stop(s, i + 2);
    }
}

} // verus!
