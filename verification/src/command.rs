//! The command vocabulary: what a resolved key sequence means.
//!
//! Everything here is plain data, without closures or function pointers, so a
//! keymap can be read from a configuration file.
//!
//! The types that can carry a search pattern are generic in it. A program uses
//! them at `String`, which is the default; contracts use them at the characters of
//! that string.

use vstd::prelude::*;

verus! {

/// Editing mode.
///
/// Operator-pending is deliberately *not* a mode. It is transient parser state
/// ([`crate::Pending`]), which keeps the mode enum small and stops "am I in
/// operator-pending?" from leaking into rendering and keymap lookup.
#[derive(Debug, Clone, Copy, PartialEq, Eq, PartialOrd, Ord, Hash, Structural)]
pub enum Mode {
    Normal,
    Insert,
    Replace,
    Visual(VisualKind),
}

impl Default for Mode {
    fn default() -> (r: Self)
        ensures
            r == Mode::Normal,
    {
        Mode::Normal
    }
}

impl Mode {
    /// Whether the count/operator/motion grammar applies.
    pub open spec fn commands(self) -> bool {
        self is Normal || self is Visual
    }

    /// True where the count/operator/motion grammar applies.
    #[must_use]
    pub fn is_command(self) -> (r: bool)
        ensures
            r == self.commands(),
    {
        matches!(self, Self::Normal | Self::Visual(_))
    }

    /// True while a selection is being made.
    #[must_use]
    pub fn is_visual(self) -> (r: bool)
        ensures
            r == (self is Visual),
    {
        matches!(self, Self::Visual(_))
    }
}

/// Visual-mode granularity. Block mode is not implemented.
#[derive(Debug, Clone, Copy, PartialEq, Eq, PartialOrd, Ord, Hash, Structural)]
pub enum VisualKind {
    Char,
    Line,
}

/// A remembered `f`/`t`/`F`/`T` search, for `;` and `,` to repeat.
#[derive(Debug, Clone, Copy, PartialEq, Eq, Structural)]
pub struct Find {
    pub target: char,
    pub backward: bool,
    pub till: bool,
}

/// A cursor movement.
///
/// Each motion carries its own operator semantics via [`Motion::is_linewise`] and
/// [`Motion::is_inclusive`]. Getting these right is what makes `dw` and `de` differ
/// by one character, and `dj` delete two whole rows.
#[derive(Debug, PartialEq, Eq)]
pub enum Motion<P = String> {
    Left,
    Right,
    Down,
    Up,
    /// `0`
    FirstColumn,
    /// `^`
    FirstNonBlank,
    /// `$`
    LastColumn,
    /// `w` / `W`
    WordForward { big: bool },
    /// `b` / `B`
    WordBackward { big: bool },
    /// `e` / `E`
    WordEnd { big: bool },
    /// `f` / `F` / `t` / `T`
    Find(Find),
    /// `;` / `,`
    RepeatFind { reverse: bool },
    /// `/` / `?`, up to the match of a literal pattern.
    Search { pattern: P, backward: bool },
    /// `n` / `N`
    RepeatSearch { reverse: bool },
    /// `G`: count as an absolute row, else the last row.
    GotoRow,
    /// `gg`: count as an absolute row, else the first row.
    GotoFirstRow,
    /// `%`: the match of the first bracket on the row, or of a quote.
    MatchPair,
    /// `H`: a counted row from the top of the reported screen.
    ScreenTop,
    /// `M`: the middle row of the reported screen.
    ScreenMiddle,
    /// `L`: a counted row from the bottom of the reported screen.
    ScreenBottom,
    /// `` ` `` / `'`: a remembered position, or the row it is on.
    Mark { name: char, exact: bool },
    /// A byte offset, or the row it is on: what a mark stands for.
    ToOffset { offset: usize, linewise: bool },
}

impl<P> Motion<P> {
    /// Whether an operator over this motion acts on whole rows.
    pub open spec fn linewise(self) -> bool {
        match self {
            Motion::Down
            | Motion::Up
            | Motion::GotoRow
            | Motion::GotoFirstRow
            | Motion::ScreenTop
            | Motion::ScreenMiddle
            | Motion::ScreenBottom => true,
            Motion::Mark { exact, .. } => !exact,
            Motion::ToOffset { linewise, .. } => linewise,
            _ => false,
        }
    }

    /// Whether the character under the motion's destination is included.
    pub open spec fn inclusive(self) -> bool {
        match self {
            Motion::WordEnd { .. } | Motion::LastColumn | Motion::MatchPair => true,
            Motion::Find(find) => !find.backward,
            _ => false,
        }
    }
}

impl View for Motion {
    type V = Motion<Seq<char>>;

    open spec fn view(&self) -> Motion<Seq<char>> {
        match *self {
            Motion::Left => Motion::Left,
            Motion::Right => Motion::Right,
            Motion::Down => Motion::Down,
            Motion::Up => Motion::Up,
            Motion::FirstColumn => Motion::FirstColumn,
            Motion::FirstNonBlank => Motion::FirstNonBlank,
            Motion::LastColumn => Motion::LastColumn,
            Motion::WordForward { big } => Motion::WordForward { big },
            Motion::WordBackward { big } => Motion::WordBackward { big },
            Motion::WordEnd { big } => Motion::WordEnd { big },
            Motion::Find(find) => Motion::Find(find),
            Motion::RepeatFind { reverse } => Motion::RepeatFind { reverse },
            Motion::Search { pattern, backward } => Motion::Search { pattern: pattern@, backward },
            Motion::RepeatSearch { reverse } => Motion::RepeatSearch { reverse },
            Motion::GotoRow => Motion::GotoRow,
            Motion::GotoFirstRow => Motion::GotoFirstRow,
            Motion::MatchPair => Motion::MatchPair,
            Motion::ScreenTop => Motion::ScreenTop,
            Motion::ScreenMiddle => Motion::ScreenMiddle,
            Motion::ScreenBottom => Motion::ScreenBottom,
            Motion::Mark { name, exact } => Motion::Mark { name, exact },
            Motion::ToOffset { offset, linewise } => Motion::ToOffset { offset, linewise },
        }
    }
}

impl Clone for Motion {
    fn clone(&self) -> (r: Self)
        ensures
            r == *self,
    {
        match self {
            Motion::Left => Motion::Left,
            Motion::Right => Motion::Right,
            Motion::Down => Motion::Down,
            Motion::Up => Motion::Up,
            Motion::FirstColumn => Motion::FirstColumn,
            Motion::FirstNonBlank => Motion::FirstNonBlank,
            Motion::LastColumn => Motion::LastColumn,
            Motion::WordForward { big } => Motion::WordForward { big: *big },
            Motion::WordBackward { big } => Motion::WordBackward { big: *big },
            Motion::WordEnd { big } => Motion::WordEnd { big: *big },
            Motion::Find(find) => Motion::Find(*find),
            Motion::RepeatFind { reverse } => Motion::RepeatFind { reverse: *reverse },
            Motion::Search { pattern, backward } => Motion::Search {
                pattern: pattern.clone(),
                backward: *backward,
            },
            Motion::RepeatSearch { reverse } => Motion::RepeatSearch { reverse: *reverse },
            Motion::GotoRow => Motion::GotoRow,
            Motion::GotoFirstRow => Motion::GotoFirstRow,
            Motion::MatchPair => Motion::MatchPair,
            Motion::ScreenTop => Motion::ScreenTop,
            Motion::ScreenMiddle => Motion::ScreenMiddle,
            Motion::ScreenBottom => Motion::ScreenBottom,
            Motion::Mark { name, exact } => Motion::Mark { name: *name, exact: *exact },
            Motion::ToOffset { offset, linewise } => Motion::ToOffset {
                offset: *offset,
                linewise: *linewise,
            },
        }
    }
}

impl Motion {
    /// Whether an operator over this motion acts on whole rows.
    #[must_use]
    pub fn is_linewise(&self) -> (r: bool)
        ensures
            r == self.linewise(),
            r == self@.linewise(),
    {
        match self {
            Self::Down
            | Self::Up
            | Self::GotoRow
            | Self::GotoFirstRow
            | Self::ScreenTop
            | Self::ScreenMiddle
            | Self::ScreenBottom => true,
            Self::Mark { exact, .. } => !*exact,
            Self::ToOffset { linewise, .. } => *linewise,
            _ => false,
        }
    }

    /// Whether the character under the motion's destination is included.
    #[must_use]
    pub fn is_inclusive(&self) -> (r: bool)
        ensures
            r == self.inclusive(),
            r == self@.inclusive(),
    {
        match self {
            // `%` takes the delimiter it lands on with it, in either direction:
            // `d%` from either end of a pair deletes both and everything between.
            Self::WordEnd { .. } | Self::LastColumn | Self::MatchPair => true,
            // Forward `f` and `t` are both inclusive; `t` simply lands a character
            // earlier. So `dt,` deletes up to but not including the comma, which
            // requires including the character `t` landed on. Backward `F`/`T` are
            // exclusive, leaving the character under the cursor alone.
            Self::Find(find) => !find.backward,
            _ => false,
        }
    }
}

/// A text object's extent.
#[derive(Debug, Clone, Copy, PartialEq, Eq, PartialOrd, Ord, Hash, Structural)]
pub enum ObjectScope {
    /// `i`: contents only.
    Inner,
    /// `a`: contents plus delimiters or trailing whitespace.
    Around,
}

/// A structural region, selected by `i`/`a` plus a key.
#[derive(Debug, Clone, Copy, PartialEq, Eq, Structural)]
pub enum TextObject {
    Word { big: bool },
    /// A paired delimiter, e.g. `(`/`)` for `ib`.
    Delimited { open: char, close: char },
    /// A symmetric delimiter, e.g. `"` or `` ` ``.
    Quoted(char),
    Paragraph,
}

/// What an operator acts upon.
#[derive(Debug, PartialEq, Eq)]
pub enum Target<P = String> {
    Motion(Motion<P>),
    Object { scope: ObjectScope, object: TextObject },
    /// A doubled operator: `dd`, `cc`, `yy`.
    CurrentRow,
    /// The active visual selection.
    Selection,
}

impl View for Target {
    type V = Target<Seq<char>>;

    open spec fn view(&self) -> Target<Seq<char>> {
        match *self {
            Target::Motion(motion) => Target::Motion(motion@),
            Target::Object { scope, object } => Target::Object { scope, object },
            Target::CurrentRow => Target::CurrentRow,
            Target::Selection => Target::Selection,
        }
    }
}

impl Clone for Target {
    fn clone(&self) -> (r: Self)
        ensures
            r == *self,
    {
        match self {
            Target::Motion(motion) => Target::Motion(motion.clone()),
            Target::Object { scope, object } => Target::Object { scope: *scope, object: *object },
            Target::CurrentRow => Target::CurrentRow,
            Target::Selection => Target::Selection,
        }
    }
}

/// An operator, awaiting a [`Target`].
#[derive(Debug, Clone, Copy, PartialEq, Eq, PartialOrd, Ord, Hash, Structural)]
pub enum Operator {
    Delete,
    Change,
    Yank,
    /// `>`
    ShiftRight,
    /// `<`
    ShiftLeft,
    /// `gu`
    Lower,
    /// `gU`
    Upper,
    /// `g~`, and `~` over a visual selection.
    SwapCase,
}

impl Operator {
    /// Whether the operator fills the register.
    pub open spec fn fills(self) -> bool {
        self is Delete || self is Change || self is Yank
    }

    /// Whether the operator shifts rows.
    pub open spec fn shifts(self) -> bool {
        self is ShiftRight || self is ShiftLeft
    }

    /// Whether this operator fills the register.
    ///
    /// Case-changing and shift operators do not: `gUW` or `>>` leave whatever you
    /// last yanked alone, so a `p` afterwards still pastes it.
    #[must_use]
    pub fn yanks(self) -> (r: bool)
        ensures
            r == self.fills(),
    {
        matches!(self, Self::Delete | Self::Change | Self::Yank)
    }

    /// Whether this operator widens every target to complete rows.
    ///
    /// Shifting is linewise even over a characterwise motion or visual selection:
    /// `>w` shifts the row containing the word, not just the word.
    #[must_use]
    pub fn forces_linewise(self) -> (r: bool)
        ensures
            r == self.shifts(),
    {
        matches!(self, Self::ShiftRight | Self::ShiftLeft)
    }
}

/// Where insert mode begins relative to the cursor.
#[derive(Debug, Clone, Copy, PartialEq, Eq, PartialOrd, Ord, Hash, Structural)]
pub enum InsertAt {
    /// `i`
    Cursor,
    /// `a`
    After,
    /// `I`
    FirstNonBlank,
    /// `A`
    EndOfRow,
    /// `o`
    RowBelow,
    /// `O`
    RowAbove,
}

/// Viewport movements. The core does not own the viewport; these resolve to
/// effects the host fulfils.
#[derive(Debug, Clone, Copy, PartialEq, Eq, PartialOrd, Ord, Hash, Structural)]
pub enum Scroll {
    HalfPageDown,
    HalfPageUp,
    PageDown,
    PageUp,
    /// `zz`
    Center,
    /// `zt`
    Top,
    /// `zb`
    Bottom,
}

/// A fully resolved command.
///
/// Counts are *not* carried here; see [`crate::Resolution::Command`]. Keeping them
/// separate means the same `Command` value can sit in a keymap unchanged.
#[derive(Debug, PartialEq, Eq)]
pub enum Command<P = String> {
    Move(Motion<P>),
    Operate { operator: Operator, target: Target<P> },
    /// Extend the visual selection to a text object.
    SelectObject { scope: ObjectScope, object: TextObject },
    EnterInsert(InsertAt),
    EnterVisual(VisualKind),
    EnterReplace,
    /// `<Esc>` from any mode.
    EnterNormal,
    /// `x` / `X`
    DeleteChar { before: bool },
    /// `r{char}`
    ReplaceChar(char),
    /// Swap the delimiters around the cursor for others.
    ChangeSurround { from: char, to: char },
    /// Take the delimiters around the cursor away.
    DeleteSurround(char),
    /// Put delimiters around the visual selection.
    SurroundSelection(char),
    /// `J`
    JoinRows,
    /// `p` / `P`
    Put { before: bool },
    /// `~`
    SwapCase,
    Undo,
    Redo,
    /// `.`
    Repeat,
    /// `q{register}`; a second `q` stops recording.
    RecordMacro(char),
    /// `@{register}`
    PlayMacro(char),
    /// `m{a-z}`
    SetMark(char),
    /// `<C-o>`
    JumpBack,
    /// `<C-i>`
    JumpForward,
    Scroll(Scroll),
    /// `:`; the host opens a prompt.
    CommandPrompt,
    /// Literal text typed in insert mode.
    InsertText(char),
    /// `<CR>` in insert mode.
    InsertNewline,
    /// `<BS>` in insert mode.
    DeleteBack,
    /// `<C-w>` in insert mode.
    DeleteWordBack,
}

impl View for Command {
    type V = Command<Seq<char>>;

    open spec fn view(&self) -> Command<Seq<char>> {
        match *self {
            Command::Move(motion) => Command::Move(motion@),
            Command::Operate { operator, target } => Command::Operate { operator, target: target@ },
            Command::SelectObject { scope, object } => Command::SelectObject { scope, object },
            Command::EnterInsert(at) => Command::EnterInsert(at),
            Command::EnterVisual(kind) => Command::EnterVisual(kind),
            Command::EnterReplace => Command::EnterReplace,
            Command::EnterNormal => Command::EnterNormal,
            Command::DeleteChar { before } => Command::DeleteChar { before },
            Command::ReplaceChar(ch) => Command::ReplaceChar(ch),
            Command::ChangeSurround { from, to } => Command::ChangeSurround { from, to },
            Command::DeleteSurround(ch) => Command::DeleteSurround(ch),
            Command::SurroundSelection(ch) => Command::SurroundSelection(ch),
            Command::JoinRows => Command::JoinRows,
            Command::Put { before } => Command::Put { before },
            Command::SwapCase => Command::SwapCase,
            Command::Undo => Command::Undo,
            Command::Redo => Command::Redo,
            Command::Repeat => Command::Repeat,
            Command::RecordMacro(ch) => Command::RecordMacro(ch),
            Command::PlayMacro(ch) => Command::PlayMacro(ch),
            Command::SetMark(ch) => Command::SetMark(ch),
            Command::JumpBack => Command::JumpBack,
            Command::JumpForward => Command::JumpForward,
            Command::Scroll(scroll) => Command::Scroll(scroll),
            Command::CommandPrompt => Command::CommandPrompt,
            Command::InsertText(ch) => Command::InsertText(ch),
            Command::InsertNewline => Command::InsertNewline,
            Command::DeleteBack => Command::DeleteBack,
            Command::DeleteWordBack => Command::DeleteWordBack,
        }
    }
}

impl Clone for Command {
    fn clone(&self) -> (r: Self)
        ensures
            r == *self,
    {
        match self {
            Command::Move(motion) => Command::Move(motion.clone()),
            Command::Operate { operator, target } => Command::Operate {
                operator: *operator,
                target: target.clone(),
            },
            Command::SelectObject { scope, object } => Command::SelectObject {
                scope: *scope,
                object: *object,
            },
            Command::EnterInsert(at) => Command::EnterInsert(*at),
            Command::EnterVisual(kind) => Command::EnterVisual(*kind),
            Command::EnterReplace => Command::EnterReplace,
            Command::EnterNormal => Command::EnterNormal,
            Command::DeleteChar { before } => Command::DeleteChar { before: *before },
            Command::ReplaceChar(ch) => Command::ReplaceChar(*ch),
            Command::ChangeSurround { from, to } => Command::ChangeSurround {
                from: *from,
                to: *to,
            },
            Command::DeleteSurround(ch) => Command::DeleteSurround(*ch),
            Command::SurroundSelection(ch) => Command::SurroundSelection(*ch),
            Command::JoinRows => Command::JoinRows,
            Command::Put { before } => Command::Put { before: *before },
            Command::SwapCase => Command::SwapCase,
            Command::Undo => Command::Undo,
            Command::Redo => Command::Redo,
            Command::Repeat => Command::Repeat,
            Command::RecordMacro(ch) => Command::RecordMacro(*ch),
            Command::PlayMacro(ch) => Command::PlayMacro(*ch),
            Command::SetMark(ch) => Command::SetMark(*ch),
            Command::JumpBack => Command::JumpBack,
            Command::JumpForward => Command::JumpForward,
            Command::Scroll(scroll) => Command::Scroll(*scroll),
            Command::CommandPrompt => Command::CommandPrompt,
            Command::InsertText(ch) => Command::InsertText(*ch),
            Command::InsertNewline => Command::InsertNewline,
            Command::DeleteBack => Command::DeleteBack,
            Command::DeleteWordBack => Command::DeleteWordBack,
        }
    }
}

/// A binding that needs one further key as a literal character argument.
#[derive(Debug, Clone, Copy, PartialEq, Eq, PartialOrd, Ord, Hash, Structural)]
pub enum AwaitChar {
    /// `f` / `F` / `t` / `T`
    Find { backward: bool, till: bool },
    /// `r`
    ReplaceChar,
    /// `q`
    RecordMacro,
    /// `@`
    PlayMacro,
    /// `m`
    SetMark,
    /// `` ` `` / `'`
    GotoMark { exact: bool },
}

} // verus!
