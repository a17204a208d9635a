//! The data-driven command table.
//!
//! Every built-in command is one row: a key sequence, the phase it applies
//! in, and what it does. Tries per phase are built once in `VimState::new`.
//! Adding a command = one row + (if new) one handler match arm.
use crate::key::{parse_key_sequence, parsed_sequence, strokes, Key, Stroke};
use crate::keymap::{ModeClass, Trie, Walk};
use crate::mode::{Mode, VisualKind};
use crate::motions::Motion;
use crate::objects::TextObject;
use crate::ops::Operator;
use crate::state::InsertKind;
use vstd::prelude::*;

verus! {

#[derive(Clone, Copy, Debug, PartialEq, Eq, Structural)]
pub enum Phase {
    Normal,
    /// Operator-pending (between an operator and its motion/object).
    Pending,
    Visual,
}

#[derive(Clone, Copy, Debug, PartialEq, Eq, Structural)]
pub enum NormalCmd {
    /// `x`
    DeleteCharForward,
    /// `X`
    DeleteCharBackward,
    /// `s`
    SubstituteChar,
    /// `S`
    SubstituteLine,
    /// `C`
    ChangeToEnd,
    /// `D`
    DeleteToEnd,
    /// `Y`
    YankLine,
    /// `r{char}`
    ReplaceChar,
    /// `~`
    ToggleChar,
    /// `p`
    PutAfter,
    /// `P`
    PutBefore,
    /// `J`
    Join,
    /// `gJ`
    JoinLiteral,
    /// `u`
    Undo,
    /// `<C-r>`
    Redo,
    /// `m{char}`
    MarkSet,
    /// `q{reg}`
    RecordMacro,
    /// `@{reg}` / `@@`
    PlayMacro,
    /// `'{char}` / `` `{char} ``
    JumpMark { linewise: bool },
    /// `guu` / `gUU` / `g~~` / `gugu` ...
    LinewiseOp(Operator),
    /// `zz`
    ScrollCenter,
    /// `zt`
    ScrollTop,
    /// `zb`
    ScrollBottom,
    /// `<C-e>`
    ScrollLineDown,
    /// `<C-y>`
    ScrollLineUp,
    /// `gv`
    RestoreVisual,
    /// `.`
    RepeatChange,
    /// `C-o`
    JumpBackward,
    /// `C-i`
    JumpForward,
    /// `g;`
    OlderChange,
    /// `g,`
    NewerChange,
    /// `C-a`
    IncrementNumber,
    /// `C-x`
    DecrementNumber,
    /// `ZZ`
    WriteQuit,
    /// `ZQ`
    QuitNoSave,
}

#[derive(Clone, Copy, Debug, PartialEq, Eq, Structural)]
pub enum VisualCmd {
    /// same-kind `v` / `V`
    Exit,
    /// `v` / `V`
    ToggleKind { to: char },
    /// `o`
    SwapEnds,
    /// `p` / `P` replace selection
    PutReplace,
    /// `J` / `gJ`
    Join { literal: bool },
}

#[derive(Clone, Copy, Debug, PartialEq, Eq, Structural)]
pub enum CmdKind {
    Motion(Motion),
    Object(TextObject),
    Operator(Operator),
    EnterInsert(InsertKind),
    EnterVisual(VisualKind),
    Normal(NormalCmd),
    Visual(VisualCmd),
}

impl CmdKind {
    /// The command waits for a character argument.
    pub open spec fn wants_char(self) -> bool {
        match self {
            CmdKind::Motion(Motion::FindChar { .. })
            | CmdKind::Motion(Motion::MarkJump { .. })
            | CmdKind::Normal(NormalCmd::ReplaceChar)
            | CmdKind::Normal(NormalCmd::MarkSet)
            | CmdKind::Normal(NormalCmd::JumpMark { .. })
            | CmdKind::Normal(NormalCmd::RecordMacro)
            | CmdKind::Normal(NormalCmd::PlayMacro) => true,
            _ => false,
        }
    }

    /// Commands that consume the next key as an argument.
    pub fn takes_char(self) -> (b: bool)
        ensures
            b == self.wants_char(),
    {
        match self {
            CmdKind::Motion(Motion::FindChar { .. })
            | CmdKind::Motion(Motion::MarkJump { .. })
            | CmdKind::Normal(NormalCmd::ReplaceChar)
            | CmdKind::Normal(NormalCmd::MarkSet)
            | CmdKind::Normal(NormalCmd::JumpMark { .. })
            | CmdKind::Normal(NormalCmd::RecordMacro)
            | CmdKind::Normal(NormalCmd::PlayMacro) => true,
            _ => false,
        }
    }

    /// The command may change the text. Navigation and bookkeeping do not;
    /// undo and redo are accounted for by the host.
    pub open spec fn edits(self) -> bool {
        match self {
            CmdKind::Motion(_) | CmdKind::Object(_) | CmdKind::EnterVisual(_) => false,
            CmdKind::Operator(op) => op != Operator::Yank,
            CmdKind::EnterInsert(_) => true,
            CmdKind::Normal(cmd) => match cmd {
                NormalCmd::MarkSet
                | NormalCmd::JumpMark { .. }
                | NormalCmd::RecordMacro
                | NormalCmd::PlayMacro
                | NormalCmd::ScrollCenter
                | NormalCmd::ScrollTop
                | NormalCmd::ScrollBottom
                | NormalCmd::ScrollLineDown
                | NormalCmd::ScrollLineUp
                | NormalCmd::RestoreVisual
                | NormalCmd::Undo
                | NormalCmd::Redo
                | NormalCmd::RepeatChange
                | NormalCmd::JumpBackward
                | NormalCmd::JumpForward
                | NormalCmd::OlderChange
                | NormalCmd::NewerChange
                | NormalCmd::WriteQuit
                | NormalCmd::QuitNoSave => false,
                _ => true,
            },
            CmdKind::Visual(cmd) => match cmd {
                VisualCmd::Exit | VisualCmd::ToggleKind { .. } | VisualCmd::SwapEnds => false,
                _ => true,
            },
        }
    }

    /// Does executing this command mutate the buffer? Used for undo groups.
    ///
    /// The `Normal` exclusion list is "pure navigation / bookkeeping":
    /// marks, macros, scrolls and list walks only move the cursor or
    /// engine state. `Undo`/`Redo` count as NON-mutating even though they
    /// change the text — the HOST begins their undo accounting itself
    /// (`begin_undo_group` was already consumed when the change being
    /// undone was made), and a fresh group here would nest confusingly.
    /// `RepeatChange` is excluded because its replayed steps mutate on
    /// their own (grouped by their own `begin_edit` calls). `WriteQuit` /
    /// `QuitNoSave` end the session without touching the buffer.
    pub fn mutates(self) -> (b: bool)
        ensures
            b == self.edits(),
    {
        match self {
            CmdKind::Motion(_) | CmdKind::Object(_) | CmdKind::EnterVisual(_) => false,
            CmdKind::Operator(op) => op != Operator::Yank,
            CmdKind::EnterInsert(_) => true,
            CmdKind::Normal(cmd) => match cmd {
                NormalCmd::MarkSet
                | NormalCmd::JumpMark { .. }
                | NormalCmd::RecordMacro
                | NormalCmd::PlayMacro
                | NormalCmd::ScrollCenter
                | NormalCmd::ScrollTop
                | NormalCmd::ScrollBottom
                | NormalCmd::ScrollLineDown
                | NormalCmd::ScrollLineUp
                | NormalCmd::RestoreVisual
                | NormalCmd::Undo
                | NormalCmd::Redo
                | NormalCmd::RepeatChange
                | NormalCmd::JumpBackward
                | NormalCmd::JumpForward
                | NormalCmd::OlderChange
                | NormalCmd::NewerChange
                | NormalCmd::WriteQuit
                | NormalCmd::QuitNoSave => false,
                _ => true,
            },
            CmdKind::Visual(cmd) => match cmd {
                VisualCmd::Exit | VisualCmd::ToggleKind { .. } | VisualCmd::SwapEnds => false,
                _ => true,
            },
        }
    }
}

/// One row of the command table.
pub struct Row {
    pub phase: Phase,
    pub keys: Seq<Stroke>,
    pub kind: CmdKind,
}

/// The row for keys in the usual notation.
pub open spec fn row(phase: Phase, keys: Seq<char>, kind: CmdKind) -> Row {
    Row { phase, keys: parsed_sequence(keys), kind }
}

/// A motion is a command of all three phases.
pub open spec fn with_motion(r: Seq<Row>, keys: Seq<char>, motion: Motion) -> Seq<Row> {
    r.push(row(Phase::Normal, keys, CmdKind::Motion(motion))).push(
        row(Phase::Pending, keys, CmdKind::Motion(motion)),
    ).push(row(Phase::Visual, keys, CmdKind::Motion(motion)))
}

/// A text object follows an operator or extends a selection.
pub open spec fn with_object(r: Seq<Row>, keys: Seq<char>, object: TextObject) -> Seq<Row> {
    r.push(row(Phase::Pending, keys, CmdKind::Object(object))).push(
        row(Phase::Visual, keys, CmdKind::Object(object)),
    )
}

pub open spec fn basic_motions(r: Seq<Row>) -> Seq<Row> {
    let r = with_motion(r, "h"@, Motion::Left);
    let r = with_motion(r, "l"@, Motion::Right);
    let r = with_motion(r, "j"@, Motion::Down);
    let r = with_motion(r, "k"@, Motion::Up);
    let r = with_motion(r, "gj"@, Motion::Down);
    let r = with_motion(r, "gk"@, Motion::Up);
    let r = with_motion(r, "0"@, Motion::LineStart);
    let r = with_motion(r, "^"@, Motion::FirstNonBlank);
    let r = with_motion(r, "$"@, Motion::LineEnd);
    let r = with_motion(r, "g_"@, Motion::LastLineNonBlank);
    r
}

pub open spec fn word_motions(r: Seq<Row>) -> Seq<Row> {
    let r = with_motion(r, "w"@, Motion::WordStart { big: false });
    let r = with_motion(r, "W"@, Motion::WordStart { big: true });
    let r = with_motion(r, "b"@, Motion::WordBack { big: false });
    let r = with_motion(r, "B"@, Motion::WordBack { big: true });
    let r = with_motion(r, "e"@, Motion::WordEnd { big: false });
    let r = with_motion(r, "E"@, Motion::WordEnd { big: true });
    let r = with_motion(r, "ge"@, Motion::WordEndBack { big: false });
    let r = with_motion(r, "gE"@, Motion::WordEndBack { big: true });
    r
}

pub open spec fn find_motions(r: Seq<Row>) -> Seq<Row> {
    let r = with_motion(r, "f"@, Motion::FindChar { forward: true, till: false });
    let r = with_motion(r, "F"@, Motion::FindChar { forward: false, till: false });
    let r = with_motion(r, "t"@, Motion::FindChar { forward: true, till: true });
    let r = with_motion(r, "T"@, Motion::FindChar { forward: false, till: true });
    let r = with_motion(r, ";"@, Motion::RepeatFind { reverse: false });
    let r = with_motion(r, ","@, Motion::RepeatFind { reverse: true });
    let r = with_motion(r, "%"@, Motion::MatchBracket);
    r
}

pub open spec fn text_motions(r: Seq<Row>) -> Seq<Row> {
    let r = with_motion(r, "gg"@, Motion::GoToLine { first: true });
    let r = with_motion(r, "G"@, Motion::GoToLine { first: false });
    let r = with_motion(r, "}"@, Motion::ParaNext);
    let r = with_motion(r, "{"@, Motion::ParaPrev);
    let r = with_motion(r, ")"@, Motion::SentenceNext);
    let r = with_motion(r, "("@, Motion::SentencePrev);
    let r = with_motion(r, "n"@, Motion::SearchNext { forward: true });
    let r = with_motion(r, "N"@, Motion::SearchNext { forward: false });
    let r = with_motion(r, "*"@, Motion::StarSearch { forward: true });
    let r = with_motion(r, "#"@, Motion::StarSearch { forward: false });
    let r = with_motion(r, "|"@, Motion::Column);
    r
}

pub open spec fn screen_motions(r: Seq<Row>) -> Seq<Row> {
    let r = with_motion(r, "H"@, Motion::ScreenTop);
    let r = with_motion(r, "M"@, Motion::ScreenMiddle);
    let r = with_motion(r, "L"@, Motion::ScreenBottom);
    let r = with_motion(r, "<C-d>"@, Motion::ScrollHalfDown);
    let r = with_motion(r, "<C-u>"@, Motion::ScrollHalfUp);
    let r = with_motion(r, "<C-f>"@, Motion::PageDown);
    let r = with_motion(r, "<C-b>"@, Motion::PageUp);
    let r = with_motion(r, "<CR>"@, Motion::LineDownFirstNonBlank);
    let r = with_motion(r, "+"@, Motion::LineDownFirstNonBlank);
    let r = with_motion(r, "-"@, Motion::LineUpFirstNonBlank);
    r
}

pub open spec fn word_objects(r: Seq<Row>) -> Seq<Row> {
    let r = with_object(r, "iw"@, TextObject::Word { inner: true, big: false });
    let r = with_object(r, "aw"@, TextObject::Word { inner: false, big: false });
    let r = with_object(r, "iW"@, TextObject::Word { inner: true, big: true });
    let r = with_object(r, "aW"@, TextObject::Word { inner: false, big: true });
    let r = with_object(r, "is"@, TextObject::Sentence { inner: true });
    let r = with_object(r, "as"@, TextObject::Sentence { inner: false });
    let r = with_object(r, "ip"@, TextObject::Paragraph { inner: true });
    let r = with_object(r, "ap"@, TextObject::Paragraph { inner: false });
    r
}

pub open spec fn quote_objects(r: Seq<Row>) -> Seq<Row> {
    let r = with_object(r, "i\""@, TextObject::Quote { inner: true, quote: '"' });
    let r = with_object(r, "a\""@, TextObject::Quote { inner: false, quote: '"' });
    let r = with_object(r, "i'"@, TextObject::Quote { inner: true, quote: '\'' });
    let r = with_object(r, "a'"@, TextObject::Quote { inner: false, quote: '\'' });
    let r = with_object(r, "i`"@, TextObject::Quote { inner: true, quote: '`' });
    let r = with_object(r, "a`"@, TextObject::Quote { inner: false, quote: '`' });
    let r = with_object(r, "it"@, TextObject::Tag { inner: true });
    let r = with_object(r, "at"@, TextObject::Tag { inner: false });
    r
}

pub open spec fn bracket_objects(r: Seq<Row>) -> Seq<Row> {
    let r = with_object(r, "i("@, TextObject::Block { inner: true, open: '(', close: ')' });
    let r = with_object(r, "i)"@, TextObject::Block { inner: true, open: '(', close: ')' });
    let r = with_object(r, "a("@, TextObject::Block { inner: false, open: '(', close: ')' });
    let r = with_object(r, "a)"@, TextObject::Block { inner: false, open: '(', close: ')' });
    let r = with_object(r, "i["@, TextObject::Block { inner: true, open: '[', close: ']' });
    let r = with_object(r, "i]"@, TextObject::Block { inner: true, open: '[', close: ']' });
    let r = with_object(r, "a["@, TextObject::Block { inner: false, open: '[', close: ']' });
    let r = with_object(r, "a]"@, TextObject::Block { inner: false, open: '[', close: ']' });
    r
}

pub open spec fn brace_objects(r: Seq<Row>) -> Seq<Row> {
    let r = with_object(r, "i{"@, TextObject::Block { inner: true, open: '{', close: '}' });
    let r = with_object(r, "i}"@, TextObject::Block { inner: true, open: '{', close: '}' });
    let r = with_object(r, "a{"@, TextObject::Block { inner: false, open: '{', close: '}' });
    let r = with_object(r, "a}"@, TextObject::Block { inner: false, open: '{', close: '}' });
    let r = with_object(r, "i<"@, TextObject::Block { inner: true, open: '<', close: '>' });
    let r = with_object(r, "i>"@, TextObject::Block { inner: true, open: '<', close: '>' });
    let r = with_object(r, "a<"@, TextObject::Block { inner: false, open: '<', close: '>' });
    let r = with_object(r, "a>"@, TextObject::Block { inner: false, open: '<', close: '>' });
    r
}

pub open spec fn alias_objects(r: Seq<Row>) -> Seq<Row> {
    let r = with_object(r, "ib"@, TextObject::Block { inner: true, open: '(', close: ')' });
    let r = with_object(r, "ab"@, TextObject::Block { inner: false, open: '(', close: ')' });
    let r = with_object(r, "iB"@, TextObject::Block { inner: true, open: '{', close: '}' });
    let r = with_object(r, "aB"@, TextObject::Block { inner: false, open: '{', close: '}' });
    r
}

pub open spec fn mark_rows(r: Seq<Row>) -> Seq<Row> {
    let r = r.push(row(Phase::Pending, "'"@, CmdKind::Motion(Motion::MarkJump { linewise: true })));
    let r = r.push(row(Phase::Pending, "`"@, CmdKind::Motion(Motion::MarkJump { linewise: false })));
    r
}

pub open spec fn jump_rows(r: Seq<Row>) -> Seq<Row> {
    let r = r.push(row(Phase::Normal, "'"@, CmdKind::Normal(NormalCmd::JumpMark { linewise: true })));
    let r = r.push(row(Phase::Normal, "`"@, CmdKind::Normal(NormalCmd::JumpMark { linewise: false })));
    let r = r.push(row(Phase::Normal, "<C-o>"@, CmdKind::Normal(NormalCmd::JumpBackward)));
    let r = r.push(row(Phase::Normal, "<C-i>"@, CmdKind::Normal(NormalCmd::JumpForward)));
    let r = r.push(row(Phase::Normal, "<Tab>"@, CmdKind::Normal(NormalCmd::JumpForward)));
    let r = r.push(row(Phase::Normal, "g;"@, CmdKind::Normal(NormalCmd::OlderChange)));
    let r = r.push(row(Phase::Normal, "g,"@, CmdKind::Normal(NormalCmd::NewerChange)));
    r
}

pub open spec fn operator_rows(r: Seq<Row>) -> Seq<Row> {
    let r = r.push(row(Phase::Normal, "d"@, CmdKind::Operator(Operator::Delete)));
    let r = r.push(row(Phase::Normal, "c"@, CmdKind::Operator(Operator::Change)));
    let r = r.push(row(Phase::Normal, "y"@, CmdKind::Operator(Operator::Yank)));
    let r = r.push(row(Phase::Normal, ">"@, CmdKind::Operator(Operator::IndentRight)));
    let r = r.push(row(Phase::Normal, "<"@, CmdKind::Operator(Operator::IndentLeft)));
    let r = r.push(row(Phase::Normal, "gu"@, CmdKind::Operator(Operator::Lowercase)));
    let r = r.push(row(Phase::Normal, "gU"@, CmdKind::Operator(Operator::Uppercase)));
    let r = r.push(row(Phase::Normal, "g~"@, CmdKind::Operator(Operator::ToggleCase)));
    let r = r.push(row(Phase::Normal, "gq"@, CmdKind::Operator(Operator::Format)));
    let r = r.push(row(Phase::Normal, "gw"@, CmdKind::Operator(Operator::Format)));
    r
}

pub open spec fn doubled_rows(r: Seq<Row>) -> Seq<Row> {
    let r = r.push(row(Phase::Normal, "guu"@, CmdKind::Normal(NormalCmd::LinewiseOp(Operator::Lowercase))));
    let r = r.push(row(Phase::Normal, "gugu"@, CmdKind::Normal(NormalCmd::LinewiseOp(Operator::Lowercase))));
    let r = r.push(row(Phase::Normal, "gUU"@, CmdKind::Normal(NormalCmd::LinewiseOp(Operator::Uppercase))));
    let r = r.push(row(Phase::Normal, "gUgU"@, CmdKind::Normal(NormalCmd::LinewiseOp(Operator::Uppercase))));
    let r = r.push(row(Phase::Normal, "g~~"@, CmdKind::Normal(NormalCmd::LinewiseOp(Operator::ToggleCase))));
    let r = r.push(row(Phase::Normal, "gqq"@, CmdKind::Normal(NormalCmd::LinewiseOp(Operator::Format))));
    let r = r.push(row(Phase::Normal, "gqgq"@, CmdKind::Normal(NormalCmd::LinewiseOp(Operator::Format))));
    let r = r.push(row(Phase::Normal, "g~g~"@, CmdKind::Normal(NormalCmd::LinewiseOp(Operator::ToggleCase))));
    r
}

pub open spec fn edit_rows(r: Seq<Row>) -> Seq<Row> {
    let r = r.push(row(Phase::Normal, "x"@, CmdKind::Normal(NormalCmd::DeleteCharForward)));
    let r = r.push(row(Phase::Normal, "<Del>"@, CmdKind::Normal(NormalCmd::DeleteCharForward)));
    let r = r.push(row(Phase::Normal, "X"@, CmdKind::Normal(NormalCmd::DeleteCharBackward)));
    let r = r.push(row(Phase::Normal, "s"@, CmdKind::Normal(NormalCmd::SubstituteChar)));
    let r = r.push(row(Phase::Normal, "S"@, CmdKind::Normal(NormalCmd::SubstituteLine)));
    let r = r.push(row(Phase::Normal, "C"@, CmdKind::Normal(NormalCmd::ChangeToEnd)));
    let r = r.push(row(Phase::Normal, "D"@, CmdKind::Normal(NormalCmd::DeleteToEnd)));
    let r = r.push(row(Phase::Normal, "Y"@, CmdKind::Normal(NormalCmd::YankLine)));
    let r = r.push(row(Phase::Normal, "r"@, CmdKind::Normal(NormalCmd::ReplaceChar)));
    let r = r.push(row(Phase::Normal, "~"@, CmdKind::Normal(NormalCmd::ToggleChar)));
    r
}

pub open spec fn put_rows(r: Seq<Row>) -> Seq<Row> {
    let r = r.push(row(Phase::Normal, "p"@, CmdKind::Normal(NormalCmd::PutAfter)));
    let r = r.push(row(Phase::Normal, "P"@, CmdKind::Normal(NormalCmd::PutBefore)));
    let r = r.push(row(Phase::Normal, "J"@, CmdKind::Normal(NormalCmd::Join)));
    let r = r.push(row(Phase::Normal, "gJ"@, CmdKind::Normal(NormalCmd::JoinLiteral)));
    let r = r.push(row(Phase::Normal, "u"@, CmdKind::Normal(NormalCmd::Undo)));
    let r = r.push(row(Phase::Normal, "<C-r>"@, CmdKind::Normal(NormalCmd::Redo)));
    let r = r.push(row(Phase::Normal, "m"@, CmdKind::Normal(NormalCmd::MarkSet)));
    let r = r.push(row(Phase::Normal, "."@, CmdKind::Normal(NormalCmd::RepeatChange)));
    let r = r.push(row(Phase::Normal, "q"@, CmdKind::Normal(NormalCmd::RecordMacro)));
    let r = r.push(row(Phase::Normal, "@"@, CmdKind::Normal(NormalCmd::PlayMacro)));
    r
}

pub open spec fn view_rows(r: Seq<Row>) -> Seq<Row> {
    let r = r.push(row(Phase::Normal, "<C-a>"@, CmdKind::Normal(NormalCmd::IncrementNumber)));
    let r = r.push(row(Phase::Normal, "<C-x>"@, CmdKind::Normal(NormalCmd::DecrementNumber)));
    let r = r.push(row(Phase::Normal, "zz"@, CmdKind::Normal(NormalCmd::ScrollCenter)));
    let r = r.push(row(Phase::Normal, "zt"@, CmdKind::Normal(NormalCmd::ScrollTop)));
    let r = r.push(row(Phase::Normal, "zb"@, CmdKind::Normal(NormalCmd::ScrollBottom)));
    let r = r.push(row(Phase::Normal, "<C-e>"@, CmdKind::Normal(NormalCmd::ScrollLineDown)));
    let r = r.push(row(Phase::Normal, "<C-y>"@, CmdKind::Normal(NormalCmd::ScrollLineUp)));
    let r = r.push(row(Phase::Normal, "gv"@, CmdKind::Normal(NormalCmd::RestoreVisual)));
    let r = r.push(row(Phase::Normal, "ZZ"@, CmdKind::Normal(NormalCmd::WriteQuit)));
    let r = r.push(row(Phase::Normal, "ZQ"@, CmdKind::Normal(NormalCmd::QuitNoSave)));
    r
}

pub open spec fn insert_rows(r: Seq<Row>) -> Seq<Row> {
    let r = r.push(row(Phase::Normal, "i"@, CmdKind::EnterInsert(InsertKind::Insert)));
    let r = r.push(row(Phase::Normal, "a"@, CmdKind::EnterInsert(InsertKind::Append)));
    let r = r.push(row(Phase::Normal, "I"@, CmdKind::EnterInsert(InsertKind::InsertFirstNonBlank)));
    let r = r.push(row(Phase::Normal, "A"@, CmdKind::EnterInsert(InsertKind::AppendLineEnd)));
    let r = r.push(row(Phase::Normal, "o"@, CmdKind::EnterInsert(InsertKind::OpenLine { below: true })));
    let r = r.push(row(Phase::Normal, "O"@, CmdKind::EnterInsert(InsertKind::OpenLine { below: false })));
    let r = r.push(row(Phase::Normal, "gI"@, CmdKind::EnterInsert(InsertKind::InsertAtColumnZero)));
    let r = r.push(row(Phase::Normal, "gi"@, CmdKind::EnterInsert(InsertKind::LastInsertExit)));
    let r = r.push(row(Phase::Normal, "R"@, CmdKind::EnterInsert(InsertKind::Replace)));
    r
}

pub open spec fn enter_visual_rows(r: Seq<Row>) -> Seq<Row> {
    let r = r.push(row(Phase::Normal, "v"@, CmdKind::EnterVisual(VisualKind::Char)));
    let r = r.push(row(Phase::Normal, "V"@, CmdKind::EnterVisual(VisualKind::Line)));
    let r = r.push(row(Phase::Normal, "<C-v>"@, CmdKind::EnterVisual(VisualKind::Block)));
    r
}

pub open spec fn visual_rows(r: Seq<Row>) -> Seq<Row> {
    let r = r.push(row(Phase::Visual, "v"@, CmdKind::Visual(VisualCmd::ToggleKind { to: 'v' })));
    let r = r.push(row(Phase::Visual, "V"@, CmdKind::Visual(VisualCmd::ToggleKind { to: 'V' })));
    let r = r.push(row(Phase::Visual, "<C-v>"@, CmdKind::Visual(VisualCmd::ToggleKind { to: 'b' })));
    let r = r.push(row(Phase::Visual, "o"@, CmdKind::Visual(VisualCmd::SwapEnds)));
    let r = r.push(row(Phase::Visual, "p"@, CmdKind::Visual(VisualCmd::PutReplace)));
    let r = r.push(row(Phase::Visual, "P"@, CmdKind::Visual(VisualCmd::PutReplace)));
    let r = r.push(row(Phase::Visual, "J"@, CmdKind::Visual(VisualCmd::Join { literal: false })));
    let r = r.push(row(Phase::Visual, "gJ"@, CmdKind::Visual(VisualCmd::Join { literal: true })));
    r
}

pub open spec fn visual_delete_rows(r: Seq<Row>) -> Seq<Row> {
    let r = r.push(row(Phase::Visual, "d"@, CmdKind::Operator(Operator::Delete)));
    let r = r.push(row(Phase::Visual, "x"@, CmdKind::Operator(Operator::Delete)));
    let r = r.push(row(Phase::Visual, "<Del>"@, CmdKind::Operator(Operator::Delete)));
    let r = r.push(row(Phase::Visual, "D"@, CmdKind::Operator(Operator::Delete)));
    let r = r.push(row(Phase::Visual, "X"@, CmdKind::Operator(Operator::Delete)));
    let r = r.push(row(Phase::Visual, "y"@, CmdKind::Operator(Operator::Yank)));
    let r = r.push(row(Phase::Visual, "c"@, CmdKind::Operator(Operator::Change)));
    let r = r.push(row(Phase::Visual, "s"@, CmdKind::Operator(Operator::Change)));
    let r = r.push(row(Phase::Visual, "C"@, CmdKind::Operator(Operator::Change)));
    let r = r.push(row(Phase::Visual, "S"@, CmdKind::Operator(Operator::Change)));
    r
}

pub open spec fn visual_case_rows(r: Seq<Row>) -> Seq<Row> {
    let r = r.push(row(Phase::Visual, ">"@, CmdKind::Operator(Operator::IndentRight)));
    let r = r.push(row(Phase::Visual, "<"@, CmdKind::Operator(Operator::IndentLeft)));
    let r = r.push(row(Phase::Visual, "u"@, CmdKind::Operator(Operator::Lowercase)));
    let r = r.push(row(Phase::Visual, "U"@, CmdKind::Operator(Operator::Uppercase)));
    let r = r.push(row(Phase::Visual, "~"@, CmdKind::Operator(Operator::ToggleCase)));
    let r = r.push(row(Phase::Visual, "gu"@, CmdKind::Operator(Operator::Lowercase)));
    let r = r.push(row(Phase::Visual, "gU"@, CmdKind::Operator(Operator::Uppercase)));
    let r = r.push(row(Phase::Visual, "g~"@, CmdKind::Operator(Operator::ToggleCase)));
    let r = r.push(row(Phase::Visual, "gq"@, CmdKind::Operator(Operator::Format)));
    r
}

/// Every row of the command table, in order; a later row replaces an earlier
/// one for the same keys.
#[verifier::opaque]
pub open spec fn builtin_rows() -> Seq<Row> {
    let r = Seq::<Row>::empty();
    let r = basic_motions(r);
    let r = word_motions(r);
    let r = find_motions(r);
    let r = text_motions(r);
    let r = screen_motions(r);
    let r = word_objects(r);
    let r = quote_objects(r);
    let r = bracket_objects(r);
    let r = brace_objects(r);
    let r = alias_objects(r);
    let r = mark_rows(r);
    let r = jump_rows(r);
    let r = operator_rows(r);
    let r = doubled_rows(r);
    let r = edit_rows(r);
    let r = put_rows(r);
    let r = view_rows(r);
    let r = insert_rows(r);
    let r = enter_visual_rows(r);
    let r = visual_rows(r);
    let r = visual_delete_rows(r);
    let r = visual_case_rows(r);
    r
}

/// The command of the last of the first `n` rows for `keys`.
pub open spec fn last_row_for(rows: Seq<Row>, n: int, phase: Phase, keys: Seq<Stroke>) -> Option<
    CmdKind,
>
    decreases n,
{
    if n <= 0 || n > rows.len() {
        None
    } else if rows[n - 1].phase == phase && rows[n - 1].keys == keys {
        Some(rows[n - 1].kind)
    } else {
        last_row_for(rows, n - 1, phase, keys)
    }
}

/// The built-in command of `keys`.
#[verifier::opaque]
pub open spec fn builtin(phase: Phase, keys: Seq<Stroke>) -> Option<CmdKind> {
    last_row_for(builtin_rows(), builtin_rows().len() as int, phase, keys)
}

/// Some built-in command goes on behind `keys`.
#[verifier::opaque]
pub open spec fn builtin_continues(phase: Phase, keys: Seq<Stroke>) -> bool {
    exists|more: Seq<Stroke>| more.len() > 0 && (#[trigger] builtin(phase, keys + more)) is Some
}

struct RowBuilder {
    rows: Vec<(Vec<Key>, Phase, CmdKind)>,
}

pub open spec fn row_of(r: (Vec<Key>, Phase, CmdKind)) -> Row {
    Row { phase: r.1, keys: strokes(r.0@), kind: r.2 }
}

impl View for RowBuilder {
    type V = Seq<Row>;

    closed spec fn view(&self) -> Seq<Row> {
        self.rows@.map_values(|r: (Vec<Key>, Phase, CmdKind)| row_of(r))
    }
}

impl RowBuilder {
    fn new() -> (b: Self)
        ensures
            b@ == Seq::<Row>::empty(),
    {
        let b = RowBuilder { rows: Vec::new() };
        proof {
            assert(b@ =~= Seq::<Row>::empty());
        }
        b
    }

    fn add(&mut self, keys: &str, phase: Phase, kind: CmdKind)
        ensures
            final(self)@ == old(self)@.push(row(phase, keys@, kind)),
    {
        let keys = parse_key_sequence(keys);
        let ghost added = row_of((keys, phase, kind));
        self.rows.push((keys, phase, kind));
        proof {
            assert(self@ =~= old(self)@.push(added));
        }
    }

    fn normal(&mut self, keys: &str, kind: CmdKind)
        ensures
            final(self)@ == old(self)@.push(row(Phase::Normal, keys@, kind)),
    {
        self.add(keys, Phase::Normal, kind);
    }

    fn pending(&mut self, keys: &str, kind: CmdKind)
        ensures
            final(self)@ == old(self)@.push(row(Phase::Pending, keys@, kind)),
    {
        self.add(keys, Phase::Pending, kind);
    }

    fn visual(&mut self, keys: &str, kind: CmdKind)
        ensures
            final(self)@ == old(self)@.push(row(Phase::Visual, keys@, kind)),
    {
        self.add(keys, Phase::Visual, kind);
    }

    /// Register a motion in all three phases.
    fn motion_all(&mut self, keys: &str, motion: Motion)
        ensures
            final(self)@ == with_motion(old(self)@, keys@, motion),
    {
        self.normal(keys, CmdKind::Motion(motion));
        self.pending(keys, CmdKind::Motion(motion));
        self.visual(keys, CmdKind::Motion(motion));
    }

    /// Register a text object in pending + visual phases.
    fn object(&mut self, keys: &str, object: TextObject)
        ensures
            final(self)@ == with_object(old(self)@, keys@, object),
    {
        self.pending(keys, CmdKind::Object(object));
        self.visual(keys, CmdKind::Object(object));
    }
}

impl RowBuilder {
    fn add_basic_motions(&mut self)
        ensures
            final(self)@ == basic_motions(old(self)@),
    {
        self.motion_all("h", Motion::Left);
        self.motion_all("l", Motion::Right);
        self.motion_all("j", Motion::Down);
        self.motion_all("k", Motion::Up);
        self.motion_all("gj", Motion::Down);
        self.motion_all("gk", Motion::Up);
        self.motion_all("0", Motion::LineStart);
        self.motion_all("^", Motion::FirstNonBlank);
        self.motion_all("$", Motion::LineEnd);
        self.motion_all("g_", Motion::LastLineNonBlank);
    }

    fn add_word_motions(&mut self)
        ensures
            final(self)@ == word_motions(old(self)@),
    {
        self.motion_all("w", Motion::WordStart { big: false });
        self.motion_all("W", Motion::WordStart { big: true });
        self.motion_all("b", Motion::WordBack { big: false });
        self.motion_all("B", Motion::WordBack { big: true });
        self.motion_all("e", Motion::WordEnd { big: false });
        self.motion_all("E", Motion::WordEnd { big: true });
        self.motion_all("ge", Motion::WordEndBack { big: false });
        self.motion_all("gE", Motion::WordEndBack { big: true });
    }

    fn add_find_motions(&mut self)
        ensures
            final(self)@ == find_motions(old(self)@),
    {
        self.motion_all("f", Motion::FindChar { forward: true, till: false });
        self.motion_all("F", Motion::FindChar { forward: false, till: false });
        self.motion_all("t", Motion::FindChar { forward: true, till: true });
        self.motion_all("T", Motion::FindChar { forward: false, till: true });
        self.motion_all(";", Motion::RepeatFind { reverse: false });
        self.motion_all(",", Motion::RepeatFind { reverse: true });
        self.motion_all("%", Motion::MatchBracket);
    }

    fn add_text_motions(&mut self)
        ensures
            final(self)@ == text_motions(old(self)@),
    {
        self.motion_all("gg", Motion::GoToLine { first: true });
        self.motion_all("G", Motion::GoToLine { first: false });
        self.motion_all("}", Motion::ParaNext);
        self.motion_all("{", Motion::ParaPrev);
        self.motion_all(")", Motion::SentenceNext);
        self.motion_all("(", Motion::SentencePrev);
        self.motion_all("n", Motion::SearchNext { forward: true });
        self.motion_all("N", Motion::SearchNext { forward: false });
        self.motion_all("*", Motion::StarSearch { forward: true });
        self.motion_all("#", Motion::StarSearch { forward: false });
        self.motion_all("|", Motion::Column);
    }

    fn add_screen_motions(&mut self)
        ensures
            final(self)@ == screen_motions(old(self)@),
    {
        self.motion_all("H", Motion::ScreenTop);
        self.motion_all("M", Motion::ScreenMiddle);
        self.motion_all("L", Motion::ScreenBottom);
        self.motion_all("<C-d>", Motion::ScrollHalfDown);
        self.motion_all("<C-u>", Motion::ScrollHalfUp);
        self.motion_all("<C-f>", Motion::PageDown);
        self.motion_all("<C-b>", Motion::PageUp);
        self.motion_all("<CR>", Motion::LineDownFirstNonBlank);
        self.motion_all("+", Motion::LineDownFirstNonBlank);
        self.motion_all("-", Motion::LineUpFirstNonBlank);
    }

    fn add_word_objects(&mut self)
        ensures
            final(self)@ == word_objects(old(self)@),
    {
        self.object("iw", TextObject::Word { inner: true, big: false });
        self.object("aw", TextObject::Word { inner: false, big: false });
        self.object("iW", TextObject::Word { inner: true, big: true });
        self.object("aW", TextObject::Word { inner: false, big: true });
        self.object("is", TextObject::Sentence { inner: true });
        self.object("as", TextObject::Sentence { inner: false });
        self.object("ip", TextObject::Paragraph { inner: true });
        self.object("ap", TextObject::Paragraph { inner: false });
    }

    fn add_quote_objects(&mut self)
        ensures
            final(self)@ == quote_objects(old(self)@),
    {
        self.object("i\"", TextObject::Quote { inner: true, quote: '"' });
        self.object("a\"", TextObject::Quote { inner: false, quote: '"' });
        self.object("i'", TextObject::Quote { inner: true, quote: '\'' });
        self.object("a'", TextObject::Quote { inner: false, quote: '\'' });
        self.object("i`", TextObject::Quote { inner: true, quote: '`' });
        self.object("a`", TextObject::Quote { inner: false, quote: '`' });
        self.object("it", TextObject::Tag { inner: true });
        self.object("at", TextObject::Tag { inner: false });
    }

    fn add_bracket_objects(&mut self)
        ensures
            final(self)@ == bracket_objects(old(self)@),
    {
        self.object("i(", TextObject::Block { inner: true, open: '(', close: ')' });
        self.object("i)", TextObject::Block { inner: true, open: '(', close: ')' });
        self.object("a(", TextObject::Block { inner: false, open: '(', close: ')' });
        self.object("a)", TextObject::Block { inner: false, open: '(', close: ')' });
        self.object("i[", TextObject::Block { inner: true, open: '[', close: ']' });
        self.object("i]", TextObject::Block { inner: true, open: '[', close: ']' });
        self.object("a[", TextObject::Block { inner: false, open: '[', close: ']' });
        self.object("a]", TextObject::Block { inner: false, open: '[', close: ']' });
    }

    fn add_brace_objects(&mut self)
        ensures
            final(self)@ == brace_objects(old(self)@),
    {
        self.object("i{", TextObject::Block { inner: true, open: '{', close: '}' });
        self.object("i}", TextObject::Block { inner: true, open: '{', close: '}' });
        self.object("a{", TextObject::Block { inner: false, open: '{', close: '}' });
        self.object("a}", TextObject::Block { inner: false, open: '{', close: '}' });
        self.object("i<", TextObject::Block { inner: true, open: '<', close: '>' });
        self.object("i>", TextObject::Block { inner: true, open: '<', close: '>' });
        self.object("a<", TextObject::Block { inner: false, open: '<', close: '>' });
        self.object("a>", TextObject::Block { inner: false, open: '<', close: '>' });
    }

    fn add_alias_objects(&mut self)
        ensures
            final(self)@ == alias_objects(old(self)@),
    {
        self.object("ib", TextObject::Block { inner: true, open: '(', close: ')' });
        self.object("ab", TextObject::Block { inner: false, open: '(', close: ')' });
        self.object("iB", TextObject::Block { inner: true, open: '{', close: '}' });
        self.object("aB", TextObject::Block { inner: false, open: '{', close: '}' });
    }

    fn add_mark_rows(&mut self)
        ensures
            final(self)@ == mark_rows(old(self)@),
    {
        self.pending("'", CmdKind::Motion(Motion::MarkJump { linewise: true }));
        self.pending("`", CmdKind::Motion(Motion::MarkJump { linewise: false }));
    }

    fn add_jump_rows(&mut self)
        ensures
            final(self)@ == jump_rows(old(self)@),
    {
        self.normal("'", CmdKind::Normal(NormalCmd::JumpMark { linewise: true }));
        self.normal("`", CmdKind::Normal(NormalCmd::JumpMark { linewise: false }));
        self.normal("<C-o>", CmdKind::Normal(NormalCmd::JumpBackward));
        self.normal("<C-i>", CmdKind::Normal(NormalCmd::JumpForward));
        self.normal("<Tab>", CmdKind::Normal(NormalCmd::JumpForward));
        self.normal("g;", CmdKind::Normal(NormalCmd::OlderChange));
        self.normal("g,", CmdKind::Normal(NormalCmd::NewerChange));
    }

    fn add_operator_rows(&mut self)
        ensures
            final(self)@ == operator_rows(old(self)@),
    {
        self.normal("d", CmdKind::Operator(Operator::Delete));
        self.normal("c", CmdKind::Operator(Operator::Change));
        self.normal("y", CmdKind::Operator(Operator::Yank));
        self.normal(">", CmdKind::Operator(Operator::IndentRight));
        self.normal("<", CmdKind::Operator(Operator::IndentLeft));
        self.normal("gu", CmdKind::Operator(Operator::Lowercase));
        self.normal("gU", CmdKind::Operator(Operator::Uppercase));
        self.normal("g~", CmdKind::Operator(Operator::ToggleCase));
        self.normal("gq", CmdKind::Operator(Operator::Format));
        self.normal("gw", CmdKind::Operator(Operator::Format));
    }

    fn add_doubled_rows(&mut self)
        ensures
            final(self)@ == doubled_rows(old(self)@),
    {
        self.normal("guu", CmdKind::Normal(NormalCmd::LinewiseOp(Operator::Lowercase)));
        self.normal("gugu", CmdKind::Normal(NormalCmd::LinewiseOp(Operator::Lowercase)));
        self.normal("gUU", CmdKind::Normal(NormalCmd::LinewiseOp(Operator::Uppercase)));
        self.normal("gUgU", CmdKind::Normal(NormalCmd::LinewiseOp(Operator::Uppercase)));
        self.normal("g~~", CmdKind::Normal(NormalCmd::LinewiseOp(Operator::ToggleCase)));
        self.normal("gqq", CmdKind::Normal(NormalCmd::LinewiseOp(Operator::Format)));
        self.normal("gqgq", CmdKind::Normal(NormalCmd::LinewiseOp(Operator::Format)));
        self.normal("g~g~", CmdKind::Normal(NormalCmd::LinewiseOp(Operator::ToggleCase)));
    }

    fn add_edit_rows(&mut self)
        ensures
            final(self)@ == edit_rows(old(self)@),
    {
        self.normal("x", CmdKind::Normal(NormalCmd::DeleteCharForward));
        self.normal("<Del>", CmdKind::Normal(NormalCmd::DeleteCharForward));
        self.normal("X", CmdKind::Normal(NormalCmd::DeleteCharBackward));
        self.normal("s", CmdKind::Normal(NormalCmd::SubstituteChar));
        self.normal("S", CmdKind::Normal(NormalCmd::SubstituteLine));
        self.normal("C", CmdKind::Normal(NormalCmd::ChangeToEnd));
        self.normal("D", CmdKind::Normal(NormalCmd::DeleteToEnd));
        self.normal("Y", CmdKind::Normal(NormalCmd::YankLine));
        self.normal("r", CmdKind::Normal(NormalCmd::ReplaceChar));
        self.normal("~", CmdKind::Normal(NormalCmd::ToggleChar));
    }

    fn add_put_rows(&mut self)
        ensures
            final(self)@ == put_rows(old(self)@),
    {
        self.normal("p", CmdKind::Normal(NormalCmd::PutAfter));
        self.normal("P", CmdKind::Normal(NormalCmd::PutBefore));
        self.normal("J", CmdKind::Normal(NormalCmd::Join));
        self.normal("gJ", CmdKind::Normal(NormalCmd::JoinLiteral));
        self.normal("u", CmdKind::Normal(NormalCmd::Undo));
        self.normal("<C-r>", CmdKind::Normal(NormalCmd::Redo));
        self.normal("m", CmdKind::Normal(NormalCmd::MarkSet));
        self.normal(".", CmdKind::Normal(NormalCmd::RepeatChange));
        self.normal("q", CmdKind::Normal(NormalCmd::RecordMacro));
        self.normal("@", CmdKind::Normal(NormalCmd::PlayMacro));
    }

    fn add_view_rows(&mut self)
        ensures
            final(self)@ == view_rows(old(self)@),
    {
        self.normal("<C-a>", CmdKind::Normal(NormalCmd::IncrementNumber));
        self.normal("<C-x>", CmdKind::Normal(NormalCmd::DecrementNumber));
        self.normal("zz", CmdKind::Normal(NormalCmd::ScrollCenter));
        self.normal("zt", CmdKind::Normal(NormalCmd::ScrollTop));
        self.normal("zb", CmdKind::Normal(NormalCmd::ScrollBottom));
        self.normal("<C-e>", CmdKind::Normal(NormalCmd::ScrollLineDown));
        self.normal("<C-y>", CmdKind::Normal(NormalCmd::ScrollLineUp));
        self.normal("gv", CmdKind::Normal(NormalCmd::RestoreVisual));
        self.normal("ZZ", CmdKind::Normal(NormalCmd::WriteQuit));
        self.normal("ZQ", CmdKind::Normal(NormalCmd::QuitNoSave));
    }

    fn add_insert_rows(&mut self)
        ensures
            final(self)@ == insert_rows(old(self)@),
    {
        self.normal("i", CmdKind::EnterInsert(InsertKind::Insert));
        self.normal("a", CmdKind::EnterInsert(InsertKind::Append));
        self.normal("I", CmdKind::EnterInsert(InsertKind::InsertFirstNonBlank));
        self.normal("A", CmdKind::EnterInsert(InsertKind::AppendLineEnd));
        self.normal("o", CmdKind::EnterInsert(InsertKind::OpenLine { below: true }));
        self.normal("O", CmdKind::EnterInsert(InsertKind::OpenLine { below: false }));
        self.normal("gI", CmdKind::EnterInsert(InsertKind::InsertAtColumnZero));
        self.normal("gi", CmdKind::EnterInsert(InsertKind::LastInsertExit));
        self.normal("R", CmdKind::EnterInsert(InsertKind::Replace));
    }

    fn add_enter_visual_rows(&mut self)
        ensures
            final(self)@ == enter_visual_rows(old(self)@),
    {
        self.normal("v", CmdKind::EnterVisual(VisualKind::Char));
        self.normal("V", CmdKind::EnterVisual(VisualKind::Line));
        self.normal("<C-v>", CmdKind::EnterVisual(VisualKind::Block));
    }

    fn add_visual_rows(&mut self)
        ensures
            final(self)@ == visual_rows(old(self)@),
    {
        self.visual("v", CmdKind::Visual(VisualCmd::ToggleKind { to: 'v' }));
        self.visual("V", CmdKind::Visual(VisualCmd::ToggleKind { to: 'V' }));
        self.visual("<C-v>", CmdKind::Visual(VisualCmd::ToggleKind { to: 'b' }));
        self.visual("o", CmdKind::Visual(VisualCmd::SwapEnds));
        self.visual("p", CmdKind::Visual(VisualCmd::PutReplace));
        self.visual("P", CmdKind::Visual(VisualCmd::PutReplace));
        self.visual("J", CmdKind::Visual(VisualCmd::Join { literal: false }));
        self.visual("gJ", CmdKind::Visual(VisualCmd::Join { literal: true }));
    }

    fn add_visual_delete_rows(&mut self)
        ensures
            final(self)@ == visual_delete_rows(old(self)@),
    {
        self.visual("d", CmdKind::Operator(Operator::Delete));
        self.visual("x", CmdKind::Operator(Operator::Delete));
        self.visual("<Del>", CmdKind::Operator(Operator::Delete));
        self.visual("D", CmdKind::Operator(Operator::Delete));
        self.visual("X", CmdKind::Operator(Operator::Delete));
        self.visual("y", CmdKind::Operator(Operator::Yank));
        self.visual("c", CmdKind::Operator(Operator::Change));
        self.visual("s", CmdKind::Operator(Operator::Change));
        self.visual("C", CmdKind::Operator(Operator::Change));
        self.visual("S", CmdKind::Operator(Operator::Change));
    }

    fn add_visual_case_rows(&mut self)
        ensures
            final(self)@ == visual_case_rows(old(self)@),
    {
        self.visual(">", CmdKind::Operator(Operator::IndentRight));
        self.visual("<", CmdKind::Operator(Operator::IndentLeft));
        self.visual("u", CmdKind::Operator(Operator::Lowercase));
        self.visual("U", CmdKind::Operator(Operator::Uppercase));
        self.visual("~", CmdKind::Operator(Operator::ToggleCase));
        self.visual("gu", CmdKind::Operator(Operator::Lowercase));
        self.visual("gU", CmdKind::Operator(Operator::Uppercase));
        self.visual("g~", CmdKind::Operator(Operator::ToggleCase));
        self.visual("gq", CmdKind::Operator(Operator::Format));
    }

}

fn build_rows() -> (b: RowBuilder)
    ensures
        b@ == builtin_rows(),
{
    let mut b = RowBuilder::new();
    b.add_basic_motions();
    b.add_word_motions();
    b.add_find_motions();
    b.add_text_motions();
    b.add_screen_motions();
    b.add_word_objects();
    b.add_quote_objects();
    b.add_bracket_objects();
    b.add_brace_objects();
    b.add_alias_objects();
    b.add_mark_rows();
    b.add_jump_rows();
    b.add_operator_rows();
    b.add_doubled_rows();
    b.add_edit_rows();
    b.add_put_rows();
    b.add_view_rows();
    b.add_insert_rows();
    b.add_enter_visual_rows();
    b.add_visual_rows();
    b.add_visual_delete_rows();
    b.add_visual_case_rows();
    proof {
        reveal(builtin_rows);
    }
    b
}

/// Per-phase command tries plus derived lookup helpers.
pub struct CommandTables {
    normal: Trie<CmdKind>,
    pending: Trie<CmdKind>,
    visual: Trie<CmdKind>,
}

/// The trie holds exactly the built-in commands of the phase.
pub open spec fn holds_builtins(t: Trie<CmdKind>, phase: Phase) -> bool {
    t.live() && forall|keys: Seq<Stroke>| #[trigger] t.stored(keys) == builtin(phase, keys)
}

/// The trie holds the first `n` rows of the phase.
pub open spec fn holds_rows(t: Trie<CmdKind>, rows: Seq<Row>, n: int, phase: Phase) -> bool {
    t.live() && forall|keys: Seq<Stroke>| #[trigger]
        t.stored(keys) == last_row_for(rows, n, phase, keys)
}

impl CommandTables {
    /// Every builtin command is found in each phase that has it, and nothing
    /// else is.
    #[verifier::type_invariant]
    pub closed spec fn complete(self) -> bool {
        holds_builtins(self.normal, Phase::Normal) && holds_builtins(self.pending, Phase::Pending)
            && holds_builtins(self.visual, Phase::Visual)
    }

    pub fn build() -> (t: Self)
        ensures
            t.complete(),
    {
        let rows = build_rows();
        let mut normal: Trie<CmdKind> = Trie::new();
        let mut pending: Trie<CmdKind> = Trie::new();
        let mut visual: Trie<CmdKind> = Trie::new();
        let mut i: usize = 0;
        while i < rows.rows.len()
            invariant
                i <= rows.rows.len(),
                rows@ == builtin_rows(),
                holds_rows(normal, rows@, i as int, Phase::Normal),
                holds_rows(pending, rows@, i as int, Phase::Pending),
                holds_rows(visual, rows@, i as int, Phase::Visual),
            decreases rows.rows.len() - i,
        {
            let row = &rows.rows[i];
            proof {
                assert(rows@[i as int] == row_of(*row));
            }
            match row.1 {
                Phase::Normal => {
                    normal.insert(row.0.as_slice(), row.2);
                },
                Phase::Pending => {
                    pending.insert(row.0.as_slice(), row.2);
                },
                Phase::Visual => {
                    visual.insert(row.0.as_slice(), row.2);
                },
            }
            i = i + 1;
        }
        proof {
            reveal(builtin);
        }
        CommandTables { normal, pending, visual }
    }

    pub fn trie(&self, phase: Phase) -> (t: &Trie<CmdKind>)
        ensures
            holds_builtins(*t, phase),
    {
        proof {
            use_type_invariant(self);
        }
        match phase {
            Phase::Normal => &self.normal,
            Phase::Pending => &self.pending,
            Phase::Visual => &self.visual,
        }
    }

    /// How `keys` stands to the built-in commands of a phase.
    pub(crate) fn walk(&self, phase: Phase, keys: &[Key]) -> (w: Walk<'_, CmdKind>)
        ensures
            match w {
                Walk::Hit(kind) => builtin(phase, strokes(keys@)) == Some(*kind),
                Walk::Pending => builtin(phase, strokes(keys@)) is None && builtin_continues(
                    phase,
                    strokes(keys@),
                ),
                Walk::Miss => builtin(phase, strokes(keys@)) is None && !builtin_continues(
                    phase,
                    strokes(keys@),
                ),
            },
    {
        let t = self.trie(phase);
        proof {
            reveal(builtin_continues);
            let s = strokes(keys@);
            assert(t.stored(s) == builtin(phase, s));
            if t.continues(s) {
                let more = choose|more: Seq<Stroke>|
                    more.len() > 0 && (#[trigger] t.stored(s + more)) is Some;
                assert(builtin(phase, s + more) is Some);
            }
            if builtin_continues(phase, s) {
                let more = choose|more: Seq<Stroke>|
                    more.len() > 0 && (#[trigger] builtin(phase, s + more)) is Some;
                assert(t.stored(s + more) is Some);
            }
        }
        t.get(keys)
    }

    /// Find the longest terminal command in `keys` (for trie-miss recovery).
    pub fn longest_terminal(&self, phase: Phase, keys: &[Key]) -> (r: Option<(usize, CmdKind)>)
        ensures
            match r {
                Some((n, kind)) => longest_builtin(phase, strokes(keys@), keys@.len() as int) == n
                    && 0 < n <= keys@.len() && builtin(phase, strokes(keys@).take(n as int))
                    == Some(kind),
                None => longest_builtin(phase, strokes(keys@), keys@.len() as int) == 0,
            },
    {
        let mut n: usize = keys.len();
        while n > 0
            invariant
                n <= keys@.len(),
                longest_builtin(phase, strokes(keys@), n as int) == longest_builtin(
                    phase,
                    strokes(keys@),
                    keys@.len() as int,
                ),
            decreases n,
        {
            let head = first_keys(keys, n);
            if let Walk::Hit(kind) = self.walk(phase, head.as_slice()) {
                return Some((n, *kind));
            }
            n = n - 1;
        }
        None
    }
}

/// The length of the longest beginning of `keys`, of at most `n` keys, that is
/// a command; 0 without one.
pub open spec fn longest_builtin(phase: Phase, keys: Seq<Stroke>, n: int) -> int
    decreases n,
{
    if n <= 0 {
        0
    } else if builtin(phase, keys.take(n)) is Some {
        n
    } else {
        longest_builtin(phase, keys, n - 1)
    }
}

fn first_keys(keys: &[Key], n: usize) -> (r: Vec<Key>)
    requires
        n <= keys@.len(),
    ensures
        strokes(r@) == strokes(keys@).take(n as int),
{
    let mut r: Vec<Key> = Vec::new();
    let mut i: usize = 0;
    while i < n
        invariant
            i <= n <= keys@.len(),
            strokes(r@) == strokes(keys@).take(i as int),
        decreases n - i,
    {
        let ghost before = strokes(r@);
        let key = keys[i].clone();
        let ghost stroke = key@;
        r.push(key);
        proof {
            assert(strokes(r@) =~= before.push(stroke));
            assert(strokes(keys@).take(i + 1) =~= before.push(stroke));
        }
        i = i + 1;
    }
    r
}

/// The mapping class of a mode.
pub open spec fn class_of_mode(mode: Mode) -> ModeClass {
    match mode {
        Mode::Visual { .. } => ModeClass::Visual,
        Mode::Insert | Mode::Replace => ModeClass::Insert,
        _ => ModeClass::Normal,
    }
}

/// Which mapping class applies to a phase/mode.
pub fn mapping_class_for(mode: Mode) -> (c: ModeClass)
    ensures
        c == class_of_mode(mode),
{
    match mode {
        Mode::Visual { .. } => ModeClass::Visual,
        Mode::Insert | Mode::Replace => ModeClass::Insert,
        _ => ModeClass::Normal,
    }
}

} // verus!
