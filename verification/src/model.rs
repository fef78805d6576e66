use vstd::prelude::*;

verus! {

/// Controls how [`crate::scan`] treats escape sequences that are not plain SGR.
#[derive(Debug, Clone, Copy, PartialEq, Eq, Structural)]
pub struct Policy {
    /// When true, any well-formed escape sequence is passed through.
    /// When false (the default), only SGR sequences survive.
    pub lenient: bool,
}

impl Policy {
    /// The default policy: only plain SGR sequences survive.
    pub fn strict() -> (p: Self)
        ensures
            !p.lenient,
    {
        Policy { lenient: false }
    }

    /// Lets every well-formed sequence through; broken ones are still dropped.
    pub fn lenient() -> (p: Self)
        ensures
            p.lenient,
    {
        Policy { lenient: true }
    }
}

impl Default for Policy {
    fn default() -> (p: Self)
        ensures
            !p.lenient,
    {
        Policy { lenient: false }
    }
}

/// The family a detected escape sequence belongs to.
#[derive(Debug, Clone, Copy, PartialEq, Eq, Structural)]
pub enum SequenceKind {
    /// Control Sequence Introducer: `ESC [ ... final-byte`.
    Csi,
    /// Operating System Command: `ESC ] ... terminator`.
    Osc,
    /// Device Control String: `ESC P ... terminator`.
    Dcs,
    /// Start of String: `ESC X ... terminator`.
    Sos,
    /// Privacy Message: `ESC ^ ... terminator`.
    Pm,
    /// Application Program Command: `ESC _ ... terminator`.
    Apc,
    /// A two-byte escape with no parameters, e.g. `ESC c` (reset) or `ESC 7`.
    Simple,
}

/// The human-readable name of a sequence family.
pub open spec fn kind_label(kind: SequenceKind) -> Seq<char> {
    match kind {
        SequenceKind::Csi => "CSI"@,
        SequenceKind::Osc => "OSC"@,
        SequenceKind::Dcs => "DCS"@,
        SequenceKind::Sos => "SOS"@,
        SequenceKind::Pm => "PM"@,
        SequenceKind::Apc => "APC"@,
        SequenceKind::Simple => "simple"@,
    }
}

impl SequenceKind {
    /// The name under which reports show this family (`CSI`, `OSC`, ..., `simple`).
    pub fn label(&self) -> (s: String)
        ensures
            s@ == kind_label(*self),
    {
        match self {
            SequenceKind::Csi => "CSI".to_owned(),
            SequenceKind::Osc => "OSC".to_owned(),
            SequenceKind::Dcs => "DCS".to_owned(),
            SequenceKind::Sos => "SOS".to_owned(),
            SequenceKind::Pm => "PM".to_owned(),
            SequenceKind::Apc => "APC".to_owned(),
            SequenceKind::Simple => "simple".to_owned(),
        }
    }
}

/// Something [`crate::scan`] found and did not consider safe to pass through
/// unconditionally.
#[derive(Debug, Clone, PartialEq, Eq)]
pub enum Violation {
    /// A well-formed sequence that strict mode does not allow. Passed
    /// through only under [`Policy::lenient`].
    DisallowedSequence { kind: SequenceKind, offset: usize, bytes: String },
    /// A sequence that started but never reached its terminator before the
    /// input ended (or before the next escape began). Always dropped.
    UnterminatedSequence { kind: SequenceKind, offset: usize },
    /// An ESC byte followed by something that is not the start of any
    /// recognized sequence. Always dropped.
    BareEscape { offset: usize },
    /// A raw C1 control character (U+0080-U+009F), the 8-bit encoding of
    /// what ESC + a byte would otherwise spell out. Dropped in strict mode.
    RawC1Control { offset: usize, codepoint: u32 },
}

/// The mathematical content of a [`Violation`]: offsets are byte positions in
/// the scanned text, and the text of a sequence is its characters.
pub enum ViolationView {
    DisallowedSequence { kind: SequenceKind, offset: nat, bytes: Seq<char> },
    UnterminatedSequence { kind: SequenceKind, offset: nat },
    BareEscape { offset: nat },
    RawC1Control { offset: nat, codepoint: u32 },
}

impl ViolationView {
    /// The byte position at which the flagged text starts.
    pub open spec fn offset(self) -> nat {
        match self {
            ViolationView::DisallowedSequence { offset, .. } => offset,
            ViolationView::UnterminatedSequence { offset, .. } => offset,
            ViolationView::BareEscape { offset } => offset,
            ViolationView::RawC1Control { offset, .. } => offset,
        }
    }

    /// Whether the flagged text was broken (and so dropped under every policy).
    pub open spec fn is_broken(self) -> bool {
        self is UnterminatedSequence || self is BareEscape
    }
}

impl View for Violation {
    type V = ViolationView;

    open spec fn view(&self) -> ViolationView {
        match self {
            Violation::DisallowedSequence { kind, offset, bytes } => ViolationView::DisallowedSequence {
                kind: *kind,
                offset: *offset as nat,
                bytes: bytes@,
            },
            Violation::UnterminatedSequence { kind, offset } => ViolationView::UnterminatedSequence {
                kind: *kind,
                offset: *offset as nat,
            },
            Violation::BareEscape { offset } => ViolationView::BareEscape { offset: *offset as nat },
            Violation::RawC1Control { offset, codepoint } => ViolationView::RawC1Control {
                offset: *offset as nat,
                codepoint: *codepoint,
            },
        }
    }
}

/// The views of a list of violations, in order.
pub open spec fn violation_views(v: Seq<Violation>) -> Seq<ViolationView> {
    v.map_values(|x: Violation| x@)
}

/// Output of [`crate::scan`]: the cleaned text plus everything that was flagged.
#[derive(Debug, Clone, PartialEq, Eq)]
pub struct ScanResult {
    pub sanitized: String,
    pub violations: Vec<Violation>,
}

impl ScanResult {
    /// True when nothing was flagged.
    pub fn is_clean(&self) -> (b: bool)
        ensures
            b <==> self.violations@.len() == 0,
    {
        self.violations.len() == 0
    }
}

} // verus!
