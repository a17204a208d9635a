//! Editor modes.
use vstd::prelude::*;

verus! {

/// Which visual sub-mode is active.
#[derive(Clone, Copy, Debug, PartialEq, Eq, Structural)]
pub enum VisualKind {
    Char,
    Line,
    Block,
}

impl VisualKind {
    pub open spec fn label(self) -> Seq<char> {
        match self {
            VisualKind::Char => "VISUAL"@,
            VisualKind::Line => "V-LINE"@,
            VisualKind::Block => "V-BLOCK"@,
        }
    }

    /// Short indicator text, as vim shows it (`-- VISUAL --`, `-- V-LINE --`).
    pub fn indicator(self) -> (s: &'static str)
        ensures
            s@ == self.label(),
    {
        match self {
            VisualKind::Char => "VISUAL",
            VisualKind::Line => "V-LINE",
            VisualKind::Block => "V-BLOCK",
        }
    }
}

/// The engine mode. `OperatorPending` is intentionally *not* a mode: it is
/// transient state inside Normal mode (see [`crate::state::VimState`]).
#[derive(Clone, Copy, Debug, PartialEq, Eq, Structural)]
pub enum Mode {
    Normal,
    Insert,
    /// Insert-with-overwrite.
    Replace,
    Visual { kind: VisualKind },
    /// Command-line input (`/` and `?` search prompts, and `:`).
    CommandLine { prompt: char },
}

impl Mode {
    /// Text is being typed into the buffer.
    pub open spec fn inserting(self) -> bool {
        self == Mode::Insert || self == Mode::Replace
    }

    pub open spec fn label(self) -> Seq<char> {
        match self {
            Mode::Normal => ""@,
            Mode::Insert => "INSERT"@,
            Mode::Replace => "REPLACE"@,
            Mode::Visual { kind } => kind.label(),
            Mode::CommandLine { .. } => "CMDLINE"@,
        }
    }

    /// Status-bar indicator, as vim shows it.
    pub fn indicator(self) -> (s: &'static str)
        ensures
            s@ == self.label(),
    {
        match self {
            Mode::Normal => "",
            Mode::Insert => "INSERT",
            Mode::Replace => "REPLACE",
            Mode::Visual { kind } => kind.indicator(),
            Mode::CommandLine { .. } => "CMDLINE",
        }
    }

    pub open spec fn context(self) -> Seq<char> {
        match self {
            Mode::Normal => "normal"@,
            Mode::Insert => "insert"@,
            Mode::Replace => "insert"@,
            Mode::Visual { .. } => "visual"@,
            Mode::CommandLine { .. } => "cmdline"@,
        }
    }

    /// Stable name usable in key-context predicates (`mode == normal`).
    pub fn context_name(self) -> (s: &'static str)
        ensures
            s@ == self.context(),
    {
        match self {
            Mode::Normal => "normal",
            Mode::Insert => "insert",
            Mode::Replace => "insert",
            Mode::Visual { .. } => "visual",
            Mode::CommandLine { .. } => "cmdline",
        }
    }

    pub fn is_visual(self) -> (b: bool)
        ensures
            b == (self is Visual),
    {
        matches!(self, Mode::Visual { .. })
    }

    pub fn is_inserting(self) -> (b: bool)
        ensures
            b == self.inserting(),
    {
        matches!(self, Mode::Insert | Mode::Replace)
    }
}

} // verus!
