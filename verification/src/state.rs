//! What the editor does, as transitions of a mathematical state.
//!
//! [`EditorState`] is what an [`crate::Editor`] holds; [`Turn`] is such a state
//! with the effects emitted so far. Nothing in this module runs: each function says
//! what one piece of the editor's behaviour makes of the state before it.

use vstd::prelude::*;
use vstd::utf8::*;

use crate::buffer;
use crate::command::{
    Command, Find, InsertAt, Mode, Motion, ObjectScope, Operator, Scroll, Target, TextObject,
    VisualKind,
};
use crate::document::DocumentState;
use crate::edit;
use crate::edit::{Delta, Edit};
use crate::effect;
use crate::effect::Effect;
use crate::grapheme;
use crate::grapheme::Bound;
use crate::history;
use crate::history::{HistoryState, StepState};
use crate::host::{Indent, Viewport};
use crate::indent;
use crate::key;
use crate::key::Key;
use crate::keymap::KeymapState;
use crate::motion;
use crate::motion::Extent;
use crate::object;
use crate::pending;
use crate::pending::{Outcome, PendingState};
use crate::recase;
use crate::scan;
use crate::text;
use crate::undo;

verus! {

/// How deep `.` and `@` may nest before the editor refuses, so a macro that plays
/// itself terminates instead of overflowing the stack.
pub const MAX_REPLAY_DEPTH: usize = 64;

/// Oldest jump entries are discarded once the list reaches this size.
pub const MAX_JUMPS: usize = 100;

/// The lowercase user marks, and the automatic marks after them.
pub const MARK_COUNT: usize = 31;

/// What the unnamed register holds.
#[verifier::ext_equal]
pub struct RegisterState {
    pub text: Seq<u8>,
    pub linewise: bool,
}

/// What an editor holds.
#[verifier::ext_equal]
pub struct EditorState {
    pub text: Seq<u8>,
    pub history: HistoryState,
    pub keymap: KeymapState,
    pub indent: Indent,
    pub viewport: Viewport,
    pub pending: PendingState,
    pub mode: Mode,
    pub cursor: int,
    pub sticky: int,
    pub anchor: Option<usize>,
    pub register: RegisterState,
    pub jumps: Seq<usize>,
    pub jump_at: int,
    pub marks: Seq<Option<usize>>,
    pub last_find: Option<Find>,
    pub last_search: Option<(Seq<char>, bool)>,
    pub last_change: Seq<Key>,
    pub change_keys: Option<Seq<Key>>,
    pub visual_keys: Seq<Key>,
    pub recording: Option<(char, Seq<Key>)>,
    pub macros: Map<char, Seq<Key>>,
    pub replay_depth: int,
    pub insert_group: bool,
}

/// Where the cursor may rest in `mode`.
pub open spec fn rest_in(mode: Mode) -> Bound {
    match mode {
        Mode::Insert | Mode::Replace => Bound::PastEnd,
        Mode::Normal | Mode::Visual(_) => Bound::OnChar,
    }
}

/// The slot of a mark's name.
pub open spec fn mark_slot(name: char) -> Option<int> {
    if 'a' <= name && name <= 'z' {
        Some(name as int - 97)
    } else if name == '<' {
        Some(26)
    } else if name == '>' {
        Some(27)
    } else if name == '[' {
        Some(28)
    } else if name == ']' {
        Some(29)
    } else if name == '^' {
        Some(30)
    } else {
        None
    }
}

/// No mark set.
pub open spec fn no_marks() -> Seq<Option<usize>> {
    Seq::new(MARK_COUNT as nat, |i: int| None)
}

/// Whether every remembered position lies in a text of `len` bytes, and the jump
/// list is within its limit.
#[verifier::opaque]
pub open spec fn positions_lie_in(
    len: int,
    jumps: Seq<usize>,
    jump_at: int,
    marks: Seq<Option<usize>>,
) -> bool {
    &&& 0 <= jump_at <= jumps.len() <= MAX_JUMPS
    &&& forall|i: int| 0 <= i < jumps.len() ==> #[trigger] jumps[i] <= len
    &&& marks.len() == MARK_COUNT
    &&& forall|i: int|
        0 <= i < marks.len() ==> (#[trigger] marks[i] matches Some(m) ==> m <= len)
}

/// Motions that cross enough of the buffer to deserve a return point.
pub open spec fn pushes_jump<P>(motion: Motion<P>) -> bool {
    match motion {
        Motion::GotoRow
        | Motion::GotoFirstRow
        | Motion::MatchPair
        | Motion::ScreenTop
        | Motion::ScreenMiddle
        | Motion::ScreenBottom
        | Motion::ToOffset { .. }
        | Motion::Search { .. }
        | Motion::RepeatSearch { .. } => true,
        _ => false,
    }
}

/// The delimiters a surround key stands for, and whether a space pads them.
pub open spec fn surround_pair(delimiter: char) -> Option<(char, char, bool)> {
    if delimiter == '(' {
        Some(('(', ')', true))
    } else if delimiter == '[' {
        Some(('[', ']', true))
    } else if delimiter == '{' {
        Some(('{', '}', true))
    } else if delimiter == '<' {
        Some(('<', '>', true))
    } else if delimiter == ')' {
        Some(('(', ')', false))
    } else if delimiter == ']' {
        Some(('[', ']', false))
    } else if delimiter == '}' {
        Some(('{', '}', false))
    } else if delimiter == '>' {
        Some(('<', '>', false))
    } else if delimiter == '"' || delimiter == '\'' || delimiter == '`' {
        Some((delimiter, delimiter, false))
    } else {
        None
    }
}

// ---------------------------------------------------------------------------
// text transformations
// ---------------------------------------------------------------------------

/// The bytes of `t` in `a..b` after a case-changing operator.
pub open spec fn recased_bytes(t: Seq<u8>, a: int, b: int, operator: Operator) -> Seq<u8> {
    encode_utf8(recase::recased(decode_utf8(t.subrange(a, b)), operator))
}

/// `n` copies of `s`.
pub open spec fn copies(s: Seq<u8>, n: int) -> Seq<u8>
    decreases n,
{
    if n <= 0 {
        Seq::empty()
    } else {
        copies(s, n - 1) + s
    }
}

/// The bytes of one character.
pub open spec fn char_bytes(c: char) -> Seq<u8> {
    encode_utf8(seq![c])
}

/// `s` with a line feed at its end.
pub open spec fn newline_ended(s: Seq<u8>) -> Seq<u8> {
    if s.len() > 0 && s.last() == 10u8 {
        s
    } else {
        s.push(10u8)
    }
}

// ---------------------------------------------------------------------------
// the state
// ---------------------------------------------------------------------------

impl EditorState {
    /// An editor over `t` with `keymap`.
    pub open spec fn fresh(t: Seq<u8>, keymap: KeymapState) -> EditorState {
        EditorState {
            text: t,
            history: HistoryState::fresh(None),
            keymap,
            indent: Indent { shift_width: 4, tab_width: 8, use_tabs: false },
            viewport: Viewport { top_row: 0, height: 0 },
            pending: PendingState::fresh(),
            mode: Mode::Normal,
            cursor: 0,
            sticky: 0,
            anchor: None,
            register: RegisterState { text: Seq::empty(), linewise: false },
            jumps: Seq::empty(),
            jump_at: 0,
            marks: no_marks(),
            last_find: None,
            last_search: None,
            last_change: Seq::empty(),
            change_keys: None,
            visual_keys: Seq::empty(),
            recording: None,
            macros: Map::empty(),
            replay_depth: 0,
            insert_group: false,
        }
    }

    /// What holds of every editor, its cursor left aside.
    pub open spec fn base(self) -> bool {
        &&& valid_utf8(self.text)
        &&& self.text.len() <= buffer::MAX_LEN
        &&& self.history.wf()
        &&& self.pending.wf()
        &&& positions_lie_in(self.text.len() as int, self.jumps, self.jump_at, self.marks)
        &&& 0 <= self.replay_depth <= MAX_REPLAY_DEPTH
    }

    /// How many history groups are open beyond one for each replay and insert
    /// session under way: one while a command runs, none between commands.
    pub open spec fn spare(self) -> int {
        self.history.depth - self.replay_depth - if self.insert_group {
            1int
        } else {
            0int
        }
    }

    /// What every editor keeps: UTF-8 text within bounds, the cursor at a character
    /// boundary, every remembered position in the buffer, and one open history
    /// group for each replay and insert session under way.
    pub open spec fn wf(self) -> bool {
        &&& self.base()
        &&& text::bound(self.text, self.cursor)
        &&& self.spare() == 0
    }

    /// Whether the history has seen every change that led to the text.
    pub open spec fn in_step(self) -> bool {
        undo::in_step(self.history, self.text)
    }

    /// The text the history began from.
    pub open spec fn origin(self) -> Seq<u8> {
        undo::origin(self.history, self.text)
    }

    /// The text as it was before the outermost open group began.
    pub open spec fn settled(self) -> Seq<u8> {
        undo::settled(self.history, self.text)
    }

    /// Whether the text is `base`, or one undo away from it.
    pub open spec fn takes_back(self, base: Seq<u8>) -> bool {
        self.text == base || (self.history.cursor > 0 && history::run(
            self.text,
            self.history.undo_step().changes,
        ) == base)
    }

    /// Whether the cursor is at a grapheme boundary of its row.
    pub open spec fn legal(self) -> bool {
        grapheme::rests(self.text, self.cursor, Bound::PastEnd)
    }

    /// Whether a characterwise selection is under way whose ends, the cursor and the
    /// anchor, are at grapheme boundaries.
    pub open spec fn frames_graphemes(self) -> bool {
        &&& self.mode == Mode::Visual(VisualKind::Char)
        &&& self.legal()
        &&& self.anchor matches Some(a) && grapheme::rests(self.text, a as int, Bound::PastEnd)
    }

    /// Whether `extent` runs from one grapheme boundary to another.
    pub open spec fn rests_at(self, extent: Extent) -> bool {
        match extent {
            Extent::Chars { start, end } => grapheme::rests(self.text, start, Bound::PastEnd)
                && grapheme::rests(self.text, end, Bound::PastEnd),
            Extent::Lines { .. } => false,
        }
    }

    /// Where the cursor may rest.
    pub open spec fn rest(self) -> Bound {
        rest_in(self.mode)
    }

    /// Whether replacing `a..b` by `n` bytes leaves the text within bounds.
    pub open spec fn room(self, a: int, b: int, n: int) -> bool {
        self.text.len() - (b - a) + n <= buffer::MAX_LEN
    }

    /// The position `motion` leads to, or `at` where it leads nowhere.
    pub open spec fn stepped(
        self,
        at: int,
        motion: Motion<Seq<char>>,
        times: usize,
        bound: Bound,
    ) -> int {
        match motion::resolved(
            self.text,
            at,
            motion,
            Some(times),
            self.sticky,
            self.last_find,
            self.last_search,
            self.viewport,
            bound,
        ) {
            Some(p) => p,
            None => at,
        }
    }

    /// The cursor put at the legal position nearest `byte`, and the remembered
    /// column with it.
    pub open spec fn placed(self, byte: int) -> EditorState {
        let cursor = grapheme::clamped(self.text, byte, self.rest());
        EditorState { cursor, sticky: grapheme::column(self.text, cursor), ..self }
    }

    /// The remembered column refreshed from the cursor.
    pub open spec fn aligned(self) -> EditorState {
        EditorState { sticky: grapheme::column(self.text, self.cursor), ..self }
    }

    /// The remembered column after a motion: vertical movement keeps it, and `$`
    /// sticks to row ends.
    pub open spec fn stuck(self, motion: Motion<Seq<char>>) -> EditorState {
        match motion {
            Motion::Up | Motion::Down => self,
            Motion::LastColumn => EditorState {
                sticky: grapheme::STICKY_END as int,
                ..self
            },
            _ => self.aligned(),
        }
    }

    /// The current position remembered, and destinations beyond it discarded.
    pub open spec fn jump_pushed(self) -> EditorState {
        let all = self.jumps.take(self.jump_at).push(self.cursor as usize);
        let jumps = if all.len() > MAX_JUMPS {
            all.skip(1)
        } else {
            all
        };
        EditorState { jumps, jump_at: jumps.len() as int, ..self }
    }

    /// The offset remembered under `name`.
    pub open spec fn mark(self, name: char) -> Option<usize> {
        match mark_slot(name) {
            Some(i) => self.marks[i],
            None => None,
        }
    }

    /// `offset` remembered under `name`.
    pub open spec fn marked(self, name: char, offset: int) -> EditorState {
        match mark_slot(name) {
            Some(i) => EditorState {
                marks: self.marks.update(i, Some(offset as usize)),
                ..self
            },
            None => self,
        }
    }

    /// Every remembered position carried through `e`.
    pub open spec fn positions_shifted(self, e: Edit) -> EditorState {
        EditorState {
            jumps: self.jumps.map_values(|j: usize| e.shifted(j as int) as usize),
            marks: self.marks.map_values(
                |m: Option<usize>|
                    match m {
                        Some(o) => Some(e.shifted(o as int) as usize),
                        None => None,
                    },
            ),
            ..self
        }
    }

    /// One position back from the cursor, crossing a row boundary if need be.
    pub open spec fn back_one(self) -> int {
        let row = text::row_of(self.text, self.cursor);
        if self.cursor > text::row_start(self.text, row) {
            self.stepped(self.cursor, Motion::Left, 1, Bound::PastEnd)
        } else if row == 0 {
            self.cursor
        } else {
            text::content_end(self.text, row - 1)
        }
    }

    /// The grapheme immediately before an exclusive endpoint. Before the start of
    /// a row that is the end of the row above, not the middle of its terminator.
    pub open spec fn grapheme_before(self, byte: int) -> int {
        let b = motion::at_most(byte, self.text.len() as int);
        let row = text::row_of(self.text, b);
        if b > 0 && b == text::row_start(self.text, row) {
            text::content_end(self.text, row - 1)
        } else {
            self.stepped(b, Motion::Left, 1, Bound::PastEnd)
        }
    }

    /// The other end of the selection, pulled to a character boundary where an
    /// edit has left it off one.
    pub open spec fn anchor_byte(self) -> Option<int> {
        match self.anchor {
            None => None,
            Some(a) => Some(
                if text::bound(self.text, a as int) {
                    a as int
                } else {
                    grapheme::clamped(self.text, a as int, Bound::PastEnd)
                },
            ),
        }
    }

    /// Where a span that begins at `start` and ends on the character at `end` stops:
    /// past that character, and not before it began.
    pub open spec fn past_char(self, start: int, end: int) -> int {
        let p = match motion::resolved(
            self.text,
            end,
            Motion::Right,
            None,
            0,
            None,
            None,
            self.viewport,
            Bound::PastEnd,
        ) {
            Some(p) => p,
            None => end,
        };
        if p < start {
            start
        } else {
            p
        }
    }

    /// What the selection covers, in the granularity of the mode.
    pub open spec fn selected(self) -> Option<Extent> {
        match (self.anchor_byte(), self.mode) {
            (Some(a), Mode::Visual(kind)) => {
                let lo = if a < self.cursor {
                    a
                } else {
                    self.cursor
                };
                let hi = if a < self.cursor {
                    self.cursor
                } else {
                    a
                };
                Some(
                    match kind {
                        VisualKind::Char => Extent::Chars { start: lo, end: self.past_char(lo, hi) },
                        VisualKind::Line => Extent::Lines {
                            first: text::row_of(self.text, lo),
                            last: text::row_of(self.text, hi),
                        },
                    },
                )
            },
            _ => None,
        }
    }

    /// The visual selection as a byte range, inclusive of the character under the
    /// cursor.
    pub open spec fn selection(self) -> Option<(int, int)> {
        match self.selected() {
            Some(e) => Some(e.deleted(self.text)),
            None => None,
        }
    }

    /// The latest selection remembered in the `<` and `>` marks.
    pub open spec fn selection_marked(self) -> EditorState {
        match self.selection() {
            None => self,
            Some((a, b)) => {
                let s = self.marked('<', a);
                s.marked('>', s.grapheme_before(b))
            },
        }
    }

    /// The outer extent of a command's edits remembered in the `[` and `]` marks.
    #[verifier::opaque]
    pub open spec fn change_marked(self, effects: Seq<Effect>) -> EditorState {
        match effect::edited_extent(effects, 0) {
            None => self,
            Some((a, b)) => {
                let s = self.marked('[', a);
                s.marked(']', s.grapheme_before(b))
            },
        }
    }

    /// `extent` copied to the register, and remembered in the `[` and `]` marks.
    pub open spec fn yanked(self, extent: Extent) -> EditorState {
        let t = self.text;
        let (a, b, register) = match extent {
            Extent::Chars { start, end } => (
                start,
                end,
                RegisterState { text: t.subrange(start, end), linewise: false },
            ),
            Extent::Lines { first, last } => {
                let a = text::row_start(t, first);
                let b = text::row_end(t, last);
                (
                    a,
                    b,
                    RegisterState { text: newline_ended(t.subrange(a, b)), linewise: true },
                )
            },
        };
        let s = (EditorState { register, ..self }).marked('[', a);
        s.marked(']', s.grapheme_before(b))
    }

    /// The find of a motion remembered for `;` and `,`.
    pub open spec fn find_remembered(self, motion: Motion<Seq<char>>) -> EditorState {
        match motion {
            Motion::Find(find) => EditorState { last_find: Some(find), ..self },
            _ => self,
        }
    }

    /// The search of a motion remembered for `n` and `N`.
    pub open spec fn search_remembered(self, motion: Motion<Seq<char>>) -> EditorState {
        match motion {
            Motion::Search { pattern, backward } => EditorState {
                last_search: Some((pattern, backward)),
                ..self
            },
            _ => self,
        }
    }

    /// A mark turned into the offset it stands for; `'` and `` ` `` name the
    /// newest jump.
    pub open spec fn mark_resolved(self, motion: Motion<Seq<char>>) -> Option<
        Motion<Seq<char>>,
    > {
        match motion {
            Motion::Mark { name, exact } => {
                let offset = if name == '\'' || name == '`' {
                    if self.jumps.len() > 0 {
                        Some(self.jumps.last())
                    } else {
                        None
                    }
                } else {
                    self.mark(name)
                };
                match offset {
                    Some(offset) => Some(Motion::ToOffset { offset, linewise: !exact }),
                    None => None,
                }
            },
            _ => Some(motion),
        }
    }

    /// Whether an operator over `motion` acts on rows, and whether it includes the
    /// character it lands on. `;` and `,` inherit both from the remembered find.
    pub open spec fn semantics(self, motion: Motion<Seq<char>>) -> (bool, bool) {
        match (motion, self.last_find) {
            (Motion::RepeatFind { reverse }, Some(find)) => (
                false,
                !(find.backward != reverse),
            ),
            _ => (motion.linewise(), motion.inclusive()),
        }
    }

    /// The extent an operator's motion covers.
    pub open spec fn motion_extent(
        self,
        operator: Operator,
        motion: Motion<Seq<char>>,
        count: Option<usize>,
    ) -> Option<Extent> {
        match self.mark_resolved(motion) {
            None => None,
            Some(concrete) => {
                // `cw` behaves like `ce`, so that changing a word does not swallow
                // the space after it.
                let target = match concrete {
                    Motion::WordForward { big } if operator == Operator::Change => {
                        Motion::WordEnd { big }
                    },
                    _ => concrete,
                };
                let (linewise, inclusive) = self.semantics(target);
                let bound = if inclusive {
                    Bound::OnChar
                } else {
                    Bound::PastEnd
                };
                match motion::resolved(
                    self.text,
                    self.cursor,
                    target,
                    count,
                    self.sticky,
                    self.last_find,
                    self.last_search,
                    self.viewport,
                    bound,
                ) {
                    None => None,
                    Some(landed) => {
                        let lo = if self.cursor < landed {
                            self.cursor
                        } else {
                            landed
                        };
                        let hi = if self.cursor < landed {
                            landed
                        } else {
                            self.cursor
                        };
                        Some(
                            if linewise {
                                Extent::Lines {
                                    first: text::row_of(self.text, lo),
                                    last: text::row_of(self.text, hi),
                                }
                            } else if inclusive {
                                Extent::Chars { start: lo, end: self.past_char(lo, hi) }
                            } else {
                                Extent::Chars { start: lo, end: hi }
                            },
                        )
                    },
                }
            },
        }
    }

    /// `extent` widened to whole rows.
    pub open spec fn widened(self, extent: Extent) -> Extent {
        match extent {
            Extent::Chars { start, end } => Extent::Lines {
                first: text::row_of(self.text, start),
                last: text::row_of(
                    self.text,
                    if end - 1 > start {
                        end - 1
                    } else {
                        start
                    },
                ),
            },
            _ => extent,
        }
    }

    /// The extent an operator acts on.
    pub open spec fn target_extent(
        self,
        operator: Operator,
        target: Target<Seq<char>>,
        count: Option<usize>,
    ) -> Option<Extent> {
        let n = match count {
            Some(n) => n as int,
            None => 1,
        };
        let extent = match target {
            Target::Motion(motion) => self.motion_extent(operator, motion, count),
            Target::CurrentRow => {
                let first = text::row_of(self.text, self.cursor);
                Some(
                    Extent::Lines {
                        first,
                        last: motion::at_most(
                            first + motion::at_least_zero(n - 1),
                            text::rows(self.text) - 1,
                        ),
                    },
                )
            },
            Target::Object { scope, object } => object::object_extent(
                self.text,
                self.cursor,
                scope,
                object,
                n,
            ),
            Target::Selection => self.selected(),
        };
        match extent {
            None => None,
            Some(e) => Some(
                if operator.shifts() {
                    self.widened(e)
                } else {
                    e
                },
            ),
        }
    }

    /// The delimiters that the surround key `target` names around the cursor, with
    /// the width of each.
    pub open spec fn surround_offsets(self, target: char) -> Option<(int, int, int, int)> {
        match self.keymap.object_of(key::plain(target)) {
            None => None,
            Some(object) => match object {
                TextObject::Delimited { open, close } => match object::delimiters_of(
                    self.text,
                    self.cursor,
                    object,
                ) {
                    None => None,
                    Some((a, b)) => Some(
                        (a, b, text::char_width(open), text::char_width(close)),
                    ),
                },
                TextObject::Quoted(quote) => match object::delimiters_of(
                    self.text,
                    self.cursor,
                    object,
                ) {
                    None => None,
                    Some((a, b)) => Some(
                        (a, b, text::char_width(quote), text::char_width(quote)),
                    ),
                },
                _ => None,
            },
        }
    }

    /// Whether one space stands at each edge inside the delimiters at `open` and
    /// `close`.
    pub open spec fn padded(self, open: int, close: int, open_width: int) -> bool {
        let inner = open + open_width;
        inner < close - 1 && self.text[inner] == 32u8 && self.text[close - 1] == 32u8
    }

    /// The undo group of an insert session opened, if none is.
    pub open spec fn session_opened(self) -> EditorState {
        if self.insert_group {
            self
        } else {
            EditorState {
                history: self.history.begun(Some(self.cursor as usize)),
                insert_group: true,
                ..self
            }
        }
    }

    /// The undo group of an insert session closed, if one is open.
    pub open spec fn session_closed(self) -> EditorState {
        if self.insert_group {
            EditorState {
                history: self.history.ended(Some(self.cursor as usize)),
                insert_group: false,
                ..self
            }
        } else {
            self
        }
    }

    /// Whether `command` acts on the visual selection.
    pub open spec fn acts_on_selection(command: Command<Seq<char>>) -> bool {
        match command {
            Command::Operate { target: Target::Selection, .. } => true,
            Command::SurroundSelection(_) => true,
            _ => false,
        }
    }

    /// What `.` will replay after `command`, whose keys were `consumed`. A command
    /// that enters insert mode opens a session, whose keys accumulate until the mode
    /// ends; a one-shot change is recorded at once, outside a session. The keys that
    /// shaped a selection go in front of the operator's own.
    #[verifier::opaque]
    pub open spec fn noted(self, command: Command<Seq<char>>, consumed: Seq<Key>) -> EditorState {
        let selection = EditorState::acts_on_selection(command);
        let script = if selection {
            self.visual_keys + consumed
        } else {
            consumed
        };
        let s = if selection {
            EditorState { visual_keys: Seq::empty(), ..self }
        } else {
            self
        };
        match command {
            Command::EnterInsert(_) | Command::EnterReplace => EditorState {
                change_keys: Some(script),
                ..s
            },
            Command::Operate { operator: Operator::Change, .. } => EditorState {
                change_keys: Some(script),
                ..s
            },
            Command::EnterNormal => match s.change_keys {
                Some(keys) => EditorState { last_change: keys, change_keys: None, ..s },
                None => s,
            },
            Command::Operate { operator: Operator::Yank, .. } => s,
            Command::Operate { .. }
            | Command::DeleteChar { .. }
            | Command::ReplaceChar(_)
            | Command::ChangeSurround { .. }
            | Command::DeleteSurround(_)
            | Command::SurroundSelection(_)
            | Command::JoinRows
            | Command::Put { .. }
            | Command::SwapCase => if s.change_keys is None {
                EditorState { last_change: script, ..s }
            } else {
                s
            },
            _ => s,
        }
    }

    /// The key added to whatever is listening: a recording, unless the key is being
    /// replayed, and an insert session.
    #[verifier::opaque]
    pub open spec fn heard(self, key: Key) -> EditorState {
        EditorState {
            recording: match self.recording {
                Some((register, script)) if self.replay_depth == 0 => Some(
                    (register, script.push(key)),
                ),
                other => other,
            },
            change_keys: match self.change_keys {
                Some(script) => Some(script.push(key)),
                None => None,
            },
            ..self
        }
    }

    /// The keys that shaped the selection, after a command.
    #[verifier::opaque]
    pub open spec fn shaped(self, was_visual: bool, consumed: Seq<Key>) -> EditorState {
        if self.mode is Visual {
            EditorState {
                visual_keys: if was_visual {
                    self.visual_keys + consumed
                } else {
                    consumed
                },
                ..self
            }
        } else {
            self
        }
    }

    /// The whole text replaced: cursor, mode and remembered positions start over.
    pub open spec fn text_set(self, new: Seq<u8>) -> EditorState {
        let doc = DocumentState { text: self.text, history: self.history };
        let after = doc.replaced(0, self.text.len() as int, new);
        EditorState {
            text: after.text,
            history: after.history,
            cursor: 0,
            sticky: 0,
            anchor: None,
            pending: PendingState::fresh(),
            mode: Mode::Normal,
            jumps: Seq::empty(),
            jump_at: 0,
            marks: no_marks(),
            ..self
        }
    }
}

// ---------------------------------------------------------------------------
// turns
// ---------------------------------------------------------------------------

/// A state and the effects emitted on the way to it.
#[verifier::ext_equal]
pub struct Turn {
    pub state: EditorState,
    pub effects: Seq<Effect>,
}

/// What every piece of a command keeps, whatever else it does: the editor stays
/// sound, and the effects account for every byte of the text.
#[verifier::opaque]
pub open spec fn accounts(before: Turn, after: Turn) -> bool {
    let s = before.state;
    let t = after.state;
    &&& t.base()
    &&& t.replay_depth == s.replay_depth
    &&& t.spare() == s.spare()
    &&& t.history.limit == s.history.limit
    &&& forall|len: int| #[trigger]
        effect::leads(len, before.effects, s.text.len() as int) ==> effect::leads(
            len,
            after.effects,
            t.text.len() as int,
        )
}

/// What every piece of a command keeps that takes no step back or forward in the
/// history: beside [`accounts`], that the history sees every change, as part of the
/// group that is open.
#[verifier::opaque]
pub open spec fn keeps(before: Turn, after: Turn) -> bool {
    let s = before.state;
    let t = after.state;
    &&& accounts(before, after)
    &&& retraces(s, t)
    &&& s.in_step() && s.spare() >= 1 ==> t.settled() == s.settled()
}

/// Whether the history still has seen every change, and leads back to where it
/// began.
pub open spec fn retraces(s: EditorState, t: EditorState) -> bool {
    s.in_step() ==> t.in_step() && (s.history.limit is None ==> t.origin() == s.origin())
}

/// Whether everything from `s` to `t` is one undo step: while a group is open it
/// goes on growing, and once none is, one undo takes it back.
pub open spec fn one_step(s: EditorState, t: EditorState) -> bool {
    if t.history.depth > 0 {
        t.settled() == s.settled()
    } else {
        t.takes_back(s.settled())
    }
}

/// Whether nothing that [`keeps`] speaks of has changed.
pub open spec fn still(before: Turn, after: Turn) -> bool {
    &&& after.state.base()
    &&& after.effects == before.effects
    &&& after.state.text == before.state.text
    &&& after.state.history == before.state.history
    &&& after.state.replay_depth == before.state.replay_depth
    &&& after.state.insert_group == before.state.insert_group
}

/// Standing still keeps everything.
pub proof fn lemma_still(before: Turn, after: Turn)
    requires
        still(before, after),
    ensures
        keeps(before, after),
        after.state.spare() == before.state.spare(),
{
    reveal(keeps);
    reveal(accounts);
}

/// One piece of a command after the other.
pub proof fn lemma_keeps_then(a: Turn, b: Turn, c: Turn)
    requires
        keeps(a, b),
        keeps(b, c),
    ensures
        keeps(a, c),
{
    reveal(keeps);
    reveal(accounts);
}

/// What keeps, accounts.
pub proof fn lemma_keeps_accounts(a: Turn, b: Turn)
    requires
        keeps(a, b),
    ensures
        accounts(a, b),
{
    reveal(keeps);
}

/// What undo makes of everything from `s` to `t`: unless the history is stepped
/// through meanwhile (`ever`), or at least not back with changes open (`midway`), it leads
/// back to where it began; and unless it is stepped through, all of it is one step.
pub open spec fn undoes(s: EditorState, t: EditorState, midway: bool, ever: bool) -> bool {
    &&& !midway || !ever ==> retraces(s, t)
    &&& !ever && s.in_step() && (s.history.limit is None || t.history.depth > 0) ==> one_step(
        s,
        t,
    )
}

impl Turn {
    /// Another state, the same effects.
    pub open spec fn to(self, state: EditorState) -> Turn {
        Turn { state, ..self }
    }

    /// One more effect.
    pub open spec fn emit(self, effect: Effect) -> Turn {
        Turn { effects: self.effects.push(effect), ..self }
    }

    /// A bell.
    pub open spec fn bell(self) -> Turn {
        self.emit(Effect::Bell)
    }

    /// The mode changed, and the cursor pulled to where it may rest.
    pub open spec fn into_mode(self, mode: Mode) -> Turn {
        if self.state.mode == mode {
            self
        } else {
            let s = self.state;
            self.to(
                EditorState {
                    mode,
                    cursor: grapheme::clamped(s.text, s.cursor, rest_in(mode)),
                    ..s
                },
            ).emit(Effect::ModeChanged(mode))
        }
    }

    /// `a..b` replaced by `new`, recorded, and every remembered position carried
    /// along. Replacing nothing by nothing does nothing; an edit the buffer has no
    /// room for rings.
    pub open spec fn edited(self, a: int, b: int, new: Seq<u8>) -> Turn {
        let s = self.state;
        if a == b && new.len() == 0 {
            self
        } else if !s.room(a, b, new.len() as int) {
            self.bell()
        } else {
            let d = edit::staged(s.text, a, b, new);
            let moved = (EditorState {
                text: text::splice(s.text, a, b, new),
                history: s.history.recorded(d, s.text),
                ..s
            }).positions_shifted(d.edit);
            self.to(moved).emit(Effect::Edit(d.edit))
        }
    }

    /// Visual mode left.
    pub open spec fn visual_left(self, remember: bool) -> Turn {
        let s = if remember {
            self.state.selection_marked()
        } else {
            self.state
        };
        self.to(EditorState { anchor: None, ..s }).into_mode(Mode::Normal)
    }

    // -- motions and jumps ---------------------------------------------------

    /// A motion on its own.
    #[verifier::opaque]
    pub open spec fn moved(self, motion: Motion<Seq<char>>, count: Option<usize>) -> Turn {
        match self.state.mark_resolved(motion) {
            None => self.bell(),
            Some(target) => {
                // A submitted pattern becomes the last search even when it has no
                // match.
                let s = self.state.search_remembered(target);
                match motion::resolved(
                    s.text,
                    s.cursor,
                    target,
                    count,
                    s.sticky,
                    s.last_find,
                    s.last_search,
                    s.viewport,
                    s.rest(),
                ) {
                    None => self.to(s).bell(),
                    Some(landed) => {
                        let j = if landed != s.cursor && pushes_jump(target) {
                            s.jump_pushed()
                        } else {
                            s
                        };
                        self.to(
                            (EditorState { cursor: landed, ..j }).find_remembered(target).stuck(
                                target,
                            ),
                        )
                    },
                }
            },
        }
    }

    /// `<C-o>`: towards older positions. Leaving the present adds it to the list,
    /// so `<C-i>` can return.
    #[verifier::opaque]
    pub open spec fn jumped_back(self) -> Turn {
        let s = self.state;
        if s.jumps.len() == 0 {
            self.bell()
        } else if s.jump_at == s.jumps.len() {
            let p = s.jump_pushed();
            let q = EditorState { jump_at: p.jumps.len() - 2, ..p };
            self.to(q.placed(q.jumps[q.jump_at] as int))
        } else if s.jump_at == 0 {
            self.bell()
        } else {
            let q = EditorState { jump_at: s.jump_at - 1, ..s };
            self.to(q.placed(q.jumps[q.jump_at] as int))
        }
    }

    /// `<C-i>`: towards the present.
    #[verifier::opaque]
    pub open spec fn jumped_forward(self) -> Turn {
        let s = self.state;
        let next = s.jump_at + 1;
        if next >= s.jumps.len() {
            self.bell()
        } else {
            let p = s.placed(s.jumps[next] as int);
            self.to(
                EditorState {
                    jump_at: if next + 1 == s.jumps.len() {
                        s.jumps.len() as int
                    } else {
                        next
                    },
                    ..p
                },
            )
        }
    }

    /// A page move carries the caret; the others only ask the host to move its
    /// window.
    #[verifier::opaque]
    pub open spec fn scrolled(self, scroll: Scroll) -> Turn {
        let s = self.state;
        let h = s.viewport.height as int;
        let half = if h / 2 < 1 {
            1
        } else {
            h / 2
        };
        let page = if h - 2 < 1 {
            1
        } else {
            h - 2
        };
        let step: Option<(Motion<Seq<char>>, int)> = match scroll {
            Scroll::HalfPageDown => Some((Motion::Down, half)),
            Scroll::HalfPageUp => Some((Motion::Up, half)),
            Scroll::PageDown => Some((Motion::Down, page)),
            Scroll::PageUp => Some((Motion::Up, page)),
            Scroll::Center | Scroll::Top | Scroll::Bottom => None,
        };
        let after = match step {
            Some((motion, rows)) if h != 0 => {
                let landed = s.stepped(s.cursor, motion, rows as usize, s.rest());
                if landed != s.cursor {
                    EditorState { cursor: landed, ..s.jump_pushed() }
                } else {
                    s
                }
            },
            _ => s,
        };
        self.to(after).emit(Effect::Scroll(scroll))
    }

    // -- operators -------------------------------------------------------------

    /// One row's indent changed by `columns`. Empty rows stay untouched, while a
    /// row of nothing but whitespace is still an indent worth changing.
    #[verifier::opaque]
    pub open spec fn row_shifted(self, row: int, operator: Operator, columns: int) -> Turn {
        let s = self.state;
        let a = text::row_start(s.text, row);
        let b = text::content_end(s.text, row);
        let content = s.text.subrange(a, b);
        let n = indent::indent_len(content, 0);
        let tab = indent::tab_stop(s.indent);
        let width = indent::indent_width(content, n, tab);
        let new = if operator == Operator::ShiftRight {
            pending::saturated(width + columns) as int
        } else {
            motion::at_least_zero(width - columns)
        };
        let rendered = indent::indentation(s.indent, new);
        if a == b || rendered == content.take(n) {
            self
        } else {
            self.edited(a, a + n, rendered)
        }
    }

    /// Rows `first..=row` shifted, from bottom to top.
    pub open spec fn rows_shifted(
        self,
        first: int,
        row: int,
        operator: Operator,
        columns: int,
    ) -> Turn
        decreases row - first + 1,
    {
        if row < first {
            self
        } else {
            self.row_shifted(row, operator, columns).rows_shifted(
                first,
                row - 1,
                operator,
                columns,
            )
        }
    }

    /// The cursor clamped to `home`, and then, for a linewise operator, to the
    /// first character of its row that is not whitespace.
    pub open spec fn brought_home(self, home: int, linewise: bool) -> Turn {
        let s = self.state;
        let at = EditorState { cursor: grapheme::clamped(s.text, home, s.rest()), ..s };
        self.to(
            if linewise {
                EditorState {
                    cursor: at.stepped(at.cursor, Motion::FirstNonBlank, 1, Bound::OnChar),
                    ..at
                }
            } else {
                at
            },
        )
    }

    /// What an operator does to `extent`, the register already filled.
    #[verifier::opaque]
    pub open spec fn performed(self, operator: Operator, extent: Extent, amount: usize) -> Turn {
        let s = self.state;
        match operator {
            Operator::ShiftRight | Operator::ShiftLeft => match extent {
                Extent::Lines { first, last } => {
                    let columns = pending::saturated(s.indent.shift_width * amount) as int;
                    let t = self.rows_shifted(first, last, operator, columns);
                    let at = EditorState {
                        cursor: text::row_start(t.state.text, first),
                        ..t.state
                    };
                    t.to(
                        EditorState {
                            cursor: at.stepped(
                                at.cursor,
                                Motion::FirstNonBlank,
                                1,
                                Bound::OnChar,
                            ),
                            ..at
                        },
                    )
                },
                _ => self,
            },
            Operator::Lower | Operator::Upper | Operator::SwapCase => {
                let (a, b) = extent.content(s.text);
                let home = extent.home(s.text);
                self.edited(a, b, recased_bytes(s.text, a, b, operator)).brought_home(
                    home,
                    extent is Lines,
                )
            },
            Operator::Yank => self.brought_home(extent.home(s.text), false),
            Operator::Delete => {
                let (a, b) = extent.deleted(s.text);
                let home = extent.home(s.text);
                self.edited(a, b, Seq::empty()).brought_home(home, extent is Lines)
            },
            Operator::Change => {
                let (a, b) = extent.content(s.text);
                let t = self.edited(a, b, Seq::empty());
                t.to((EditorState { cursor: a, ..t.state }).session_opened()).into_mode(
                    Mode::Insert,
                )
            },
        }
    }

    /// An operator over `extent`. One with nothing to act on rings, but still drops
    /// a selection.
    #[verifier::opaque]
    pub open spec fn operated(self, operator: Operator, extent: Extent, amount: usize) -> Turn {
        let was_visual = self.state.mode is Visual;
        let s = if was_visual {
            self.state.selection_marked()
        } else {
            self.state
        };
        let empty = match extent {
            Extent::Chars { start, end } => start == end,
            Extent::Lines { .. } => s.text.len() == 0,
        };
        if empty && operator != Operator::Change && !operator.shifts() {
            let t = self.to(s).bell();
            if was_visual {
                t.visual_left(false)
            } else {
                t
            }
        } else {
            let filled = if operator.fills() {
                s.yanked(extent)
            } else {
                s
            };
            let t = self.to(filled).performed(operator, extent, amount);
            let u = if was_visual && t.state.mode is Visual {
                t.visual_left(false)
            } else {
                t
            };
            u.to(u.state.aligned())
        }
    }

    /// An operator over a target.
    #[verifier::opaque]
    pub open spec fn operated_on(
        self,
        operator: Operator,
        target: Target<Seq<char>>,
        count: Option<usize>,
    ) -> Turn {
        let s = match target {
            Target::Motion(motion) => self.state.find_remembered(motion).search_remembered(
                motion,
            ),
            _ => self.state,
        };
        match s.target_extent(operator, target, count) {
            None => self.to(s).bell(),
            Some(extent) => self.to(s).operated(
                operator,
                extent,
                if s.mode is Visual {
                    match count {
                        Some(n) => n,
                        None => 1,
                    }
                } else {
                    1
                },
            ),
        }
    }

    /// The selection extended to a text object.
    #[verifier::opaque]
    pub open spec fn object_selected(
        self,
        scope: ObjectScope,
        object: TextObject,
        repeat: usize,
    ) -> Turn {
        let s = self.state;
        match object::object_extent(s.text, s.cursor, scope, object, repeat as int) {
            None => self.bell(),
            Some(extent) => {
                let (a, b) = match extent {
                    Extent::Chars { start, end } => (start, end),
                    Extent::Lines { first, last } => (
                        text::row_start(s.text, first),
                        text::row_end(s.text, last),
                    ),
                };
                let end = grapheme::clamped(
                    s.text,
                    motion::at_least_zero(b - 1),
                    Bound::OnChar,
                );
                self.to((EditorState { anchor: Some(a as usize), ..s }).placed(end))
            },
        }
    }

    // -- modes -----------------------------------------------------------------

    /// The cursor put where insert mode begins.
    #[verifier::opaque]
    pub open spec fn insert_begun(self, at: InsertAt) -> Turn {
        let s = self.state;
        let t = s.text;
        let row = text::row_of(t, s.cursor);
        match at {
            InsertAt::Cursor => self,
            InsertAt::After => self.to(
                EditorState {
                    cursor: s.stepped(s.cursor, Motion::Right, 1, Bound::PastEnd),
                    ..s
                },
            ),
            InsertAt::FirstNonBlank => self.to(
                EditorState {
                    cursor: s.stepped(s.cursor, Motion::FirstNonBlank, 1, Bound::OnChar),
                    ..s
                },
            ),
            InsertAt::EndOfRow => self.to(
                EditorState { cursor: text::content_end(t, row), ..s },
            ),
            InsertAt::RowBelow => {
                let end = text::content_end(t, row);
                let e = self.edited(end, end, seq![10u8]);
                if s.room(end, end, 1) {
                    e.to(EditorState { cursor: end + 1, ..e.state })
                } else {
                    e
                }
            },
            InsertAt::RowAbove => {
                let start = text::row_start(t, row);
                let e = self.edited(start, start, seq![10u8]);
                if s.room(start, start, 1) {
                    e.to(EditorState { cursor: start, ..e.state })
                } else {
                    e
                }
            },
        }
    }

    /// Insert mode entered.
    #[verifier::opaque]
    pub open spec fn insert_entered(self, at: InsertAt) -> Turn {
        let m = self.to(self.state.session_opened()).insert_begun(at).into_mode(Mode::Insert);
        m.to(m.state.aligned())
    }

    /// Replace mode entered.
    pub open spec fn replace_entered(self) -> Turn {
        self.to(self.state.session_opened()).into_mode(Mode::Replace)
    }

    /// Visual mode entered, or left where it was already on.
    #[verifier::opaque]
    pub open spec fn visual_entered(self, kind: VisualKind) -> Turn {
        let s = self.state;
        if s.mode == Mode::Visual(kind) {
            self.visual_left(true)
        } else {
            self.to(EditorState { anchor: Some(s.cursor as usize), ..s }).into_mode(
                Mode::Visual(kind),
            )
        }
    }

    /// Normal mode entered. The insert cursor sits between characters, so leaving
    /// insert puts it on the character to the left.
    #[verifier::opaque]
    pub open spec fn normal_entered(self) -> Turn {
        let leaving = self.state.mode is Insert || self.state.mode is Replace;
        let s = self.state.session_closed();
        let back = if leaving {
            let cursor = s.stepped(s.cursor, Motion::Left, 1, Bound::PastEnd);
            (EditorState { cursor, ..s }).marked('^', cursor)
        } else {
            s
        };
        let t = if back.mode is Visual {
            self.to(back).visual_left(true)
        } else {
            self.to(EditorState { anchor: None, ..back }).into_mode(Mode::Normal)
        };
        if leaving {
            t.to(t.state.aligned())
        } else {
            t
        }
    }

    // -- edits that need more than a span ------------------------------------

    /// `x` / `X`.
    #[verifier::opaque]
    pub open spec fn char_deleted(self, before: bool, repeat: usize) -> Turn {
        let s = self.state;
        let (a, b) = if before {
            (s.stepped(s.cursor, Motion::Left, repeat, Bound::OnChar), s.cursor)
        } else {
            (s.cursor, s.stepped(s.cursor, Motion::Right, repeat, Bound::PastEnd))
        };
        if a >= b {
            self.bell()
        } else {
            let t = self.to(s.yanked(Extent::Chars { start: a, end: b })).edited(
                a,
                b,
                Seq::empty(),
            );
            t.to(t.state.placed(a))
        }
    }

    /// `r{char}`.
    #[verifier::opaque]
    pub open spec fn char_replaced(self, ch: char, repeat: usize) -> Turn {
        let s = self.state;
        let end = s.stepped(s.cursor, Motion::Right, repeat, Bound::PastEnd);
        if end <= s.cursor {
            self.bell()
        } else {
            self.edited(s.cursor, end, copies(char_bytes(ch), repeat as int))
        }
    }

    /// `~`. The cursor moves past what was swapped, but the remembered column stays
    /// where it was, so that `~j` walks straight down.
    #[verifier::opaque]
    pub open spec fn case_swapped(self, repeat: usize) -> Turn {
        let s = self.state;
        let end = s.stepped(s.cursor, Motion::Right, repeat, Bound::PastEnd);
        if end <= s.cursor {
            self.bell()
        } else {
            let t = self.edited(
                s.cursor,
                end,
                recased_bytes(s.text, s.cursor, end, Operator::SwapCase),
            );
            t.to(EditorState { sticky: t.state.sticky, ..t.state.placed(end) })
        }
    }

    /// Row `row + 1` joined to row `row`: a single space replaces the newline and the
    /// next row's indent, or nothing where either row has nothing to separate.
    #[verifier::opaque]
    pub open spec fn row_joined(self, row: int) -> Turn {
        let t = self.state.text;
        let end = text::content_end(t, row);
        let b = text::row_end(t, row + 1);
        let p = scan::skip_space(t, text::row_start(t, row + 1), b);
        let separator = if p == b || end == text::row_start(t, row) {
            Seq::empty()
        } else {
            seq![32u8]
        };
        let e = self.edited(end, p, separator);
        e.to(EditorState { cursor: end, ..e.state })
    }

    /// `J`, `n` times.
    pub open spec fn rows_joined(self, n: int) -> Turn
        decreases n,
    {
        let row = text::row_of(self.state.text, self.state.cursor);
        if n <= 0 {
            self.to(self.state.aligned())
        } else if row + 1 >= text::rows(self.state.text) {
            self.bell()
        } else {
            self.row_joined(row).rows_joined(n - 1)
        }
    }

    /// `p` / `P`.
    #[verifier::opaque]
    pub open spec fn put(self, before: bool, repeat: usize) -> Turn {
        let s = self.state;
        let t = s.text;
        let block = copies(s.register.text, repeat as int);
        if s.register.text.len() == 0 {
            self.bell()
        } else if s.register.linewise {
            let row = text::row_of(t, s.cursor);
            let a = text::row_start(t, row);
            let b = text::row_end(t, row);
            let rows = newline_ended(block);
            // A text that does not end in a newline has no row break to paste
            // after, so putting below its last row supplies one, and gives up its
            // own in exchange.
            let break_first = !before && b == t.len() && t.len() > 0 && t.last() != 10u8;
            let at = if before {
                a
            } else {
                b
            };
            let new = if break_first {
                seq![10u8] + rows.drop_last()
            } else {
                rows
            };
            if !s.room(at, at, new.len() as int) {
                self.bell()
            } else {
                let e = self.edited(at, at, new);
                let home = if break_first {
                    at + 1
                } else {
                    at
                };
                e.to(
                    (EditorState {
                        cursor: e.state.stepped(home, Motion::FirstNonBlank, 1, Bound::OnChar),
                        ..e.state
                    }).aligned(),
                )
            }
        } else {
            let at = if before {
                s.cursor
            } else {
                s.stepped(s.cursor, Motion::Right, 1, Bound::PastEnd)
            };
            if !s.room(at, at, block.len() as int) {
                self.bell()
            } else {
                let e = self.edited(at, at, block);
                e.to(
                    (EditorState {
                        cursor: grapheme::clamped(
                            e.state.text,
                            at + block.len() - 1,
                            Bound::OnChar,
                        ),
                        ..e.state
                    }).aligned(),
                )
            }
        }
    }

    /// The delimiters around the cursor replaced by `opening` and `closing`, along
    /// with a space of padding inside each where both have one. The later delimiter
    /// is replaced first, so that neither replacement moves the other.
    #[verifier::opaque]
    pub open spec fn delimiters_replaced(
        self,
        offsets: (int, int, int, int),
        opening: Seq<u8>,
        closing: Seq<u8>,
    ) -> Turn {
        let (open, close, open_width, close_width) = offsets;
        let pad: int = if self.state.padded(open, close, open_width) {
            1
        } else {
            0
        };
        let t = self.edited(close - pad, close + close_width, closing).edited(
            open,
            open + open_width + pad,
            opening,
        );
        t.to(t.state.placed(open))
    }

    /// The delimiters that `from` names swapped for those that `to` names.
    #[verifier::opaque]
    pub open spec fn surround_changed(self, from: char, to: char) -> Turn {
        match (surround_pair(to), self.state.surround_offsets(from)) {
            (Some((open, close, padding)), Some(offsets)) => {
                let opening = if padding {
                    encode_utf8(seq![open, ' '])
                } else {
                    encode_utf8(seq![open])
                };
                let closing = if padding {
                    encode_utf8(seq![' ', close])
                } else {
                    encode_utf8(seq![close])
                };
                self.delimiters_replaced(offsets, opening, closing)
            },
            _ => self.bell(),
        }
    }

    /// The delimiters that `target` names taken away.
    #[verifier::opaque]
    pub open spec fn surround_deleted(self, target: char) -> Turn {
        match self.state.surround_offsets(target) {
            Some(offsets) => self.delimiters_replaced(offsets, Seq::empty(), Seq::empty()),
            None => self.bell(),
        }
    }

    /// Delimiters put around the selection: on rows of their own around a linewise
    /// one, where padding means nothing.
    #[verifier::opaque]
    pub open spec fn surrounded(self, delimiter: char) -> Turn {
        let s = self.state;
        match (surround_pair(delimiter), s.selected()) {
            (Some((open, close, padding)), Some(extent)) => {
                let m = self.to(s.selection_marked());
                let (a, b, opening, closing) = match extent {
                    Extent::Lines { first, last } => (
                        text::row_start(s.text, first),
                        text::content_end(s.text, last),
                        encode_utf8(seq![open, '\n']),
                        encode_utf8(seq!['\n', close]),
                    ),
                    Extent::Chars { start, end } => (
                        start,
                        end,
                        if padding {
                            encode_utf8(seq![open, ' '])
                        } else {
                            encode_utf8(seq![open])
                        },
                        if padding {
                            encode_utf8(seq![' ', close])
                        } else {
                            encode_utf8(seq![close])
                        },
                    ),
                };
                let t = m.edited(b, b, closing).edited(a, a, opening).visual_left(false);
                t.to(t.state.placed(a))
            },
            _ => self.bell(),
        }
    }

    // -- insert mode -----------------------------------------------------------

    /// One character typed: over the one at the cursor in replace mode.
    #[verifier::opaque]
    pub open spec fn typed(self, ch: char) -> Turn {
        let s = self.state;
        let end = if s.mode == Mode::Replace {
            let p = s.stepped(s.cursor, Motion::Right, 1, Bound::PastEnd);
            if p < s.cursor {
                s.cursor
            } else {
                p
            }
        } else {
            s.cursor
        };
        let new = char_bytes(ch);
        let e = self.edited(s.cursor, end, new);
        if s.room(s.cursor, end, new.len() as int) {
            e.to((EditorState { cursor: s.cursor + new.len(), ..e.state }).aligned())
        } else {
            e
        }
    }

    /// `<CR>` typed.
    #[verifier::opaque]
    pub open spec fn newline_typed(self) -> Turn {
        let s = self.state;
        let e = self.edited(s.cursor, s.cursor, seq![10u8]);
        if s.room(s.cursor, s.cursor, 1) {
            e.to(EditorState { cursor: s.cursor + 1, sticky: 0, ..e.state })
        } else {
            e
        }
    }

    /// The text from `start` to the cursor deleted; nothing there rings.
    #[verifier::opaque]
    pub open spec fn deleted_back_to(self, start: int) -> Turn {
        let s = self.state;
        if start >= s.cursor {
            self.bell()
        } else {
            let e = self.edited(start, s.cursor, Seq::empty());
            e.to((EditorState { cursor: start, ..e.state }).aligned())
        }
    }

    /// `<C-w>`.
    #[verifier::opaque]
    pub open spec fn word_deleted_back(self) -> Turn {
        let s = self.state;
        self.deleted_back_to(
            match motion::resolved(
                s.text,
                s.cursor,
                Motion::WordBackward { big: false },
                None,
                s.sticky,
                None,
                None,
                s.viewport,
                Bound::PastEnd,
            ) {
                Some(p) => p,
                None => s.cursor,
            },
        )
    }

    // -- history ---------------------------------------------------------------

    /// The first `n` of `changes` reported and every remembered position carried
    /// through them.
    pub open spec fn reported(self, changes: Seq<Delta>, n: int) -> Turn
        decreases n,
    {
        if n <= 0 {
            self
        } else {
            let t = self.reported(changes, n - 1);
            let e = changes[n - 1].edit;
            t.to(t.state.positions_shifted(e)).emit(Effect::Edit(e))
        }
    }

    /// A step taken back or forward: the caret goes where the history says it was,
    /// or else to the site of the last edit.
    #[verifier::opaque]
    pub open spec fn reverted(self, step: StepState) -> Turn {
        if step.changes.len() == 0 {
            self.bell()
        } else {
            let t = self.reported(step.changes, step.changes.len() as int);
            t.to(
                t.state.placed(
                    match step.cursor {
                        Some(at) => at as int,
                        None => step.changes.last().edit.start_byte as int,
                    },
                ),
            )
        }
    }

    /// `u`. A step that cannot be applied to the text rings.
    #[verifier::opaque]
    pub open spec fn undone(self) -> Turn {
        let s = self.state;
        let doc = DocumentState { text: s.text, history: s.history };
        if !doc.can_undo() {
            self.bell()
        } else {
            let after = doc.undone();
            self.to(EditorState { text: after.text, history: after.history, ..s }).reverted(
                s.history.undo_step(),
            )
        }
    }

    /// `<C-r>`. A step that cannot be applied to the text rings.
    #[verifier::opaque]
    pub open spec fn redone(self) -> Turn {
        let s = self.state;
        let doc = DocumentState { text: s.text, history: s.history };
        if !doc.can_redo() {
            self.bell()
        } else {
            let after = doc.redone();
            self.to(EditorState { text: after.text, history: after.history, ..s }).reverted(
                s.history.redo_step(),
            )
        }
    }

    // -- commands --------------------------------------------------------------

    /// What every command but a replay does.
    #[verifier::opaque]
    pub open spec fn acted(self, command: Command<Seq<char>>, count: Option<usize>) -> Turn {
        let s = self.state;
        let repeat = match count {
            Some(n) => n,
            None => 1,
        };
        match command {
            Command::Move(motion) => self.moved(motion, count),
            Command::Operate { operator, target } => self.operated_on(operator, target, count),
            Command::SelectObject { scope, object } => self.object_selected(
                scope,
                object,
                repeat,
            ),
            Command::EnterInsert(at) => self.insert_entered(at),
            Command::EnterVisual(kind) => self.visual_entered(kind),
            Command::EnterReplace => self.replace_entered(),
            Command::EnterNormal => self.normal_entered(),
            Command::DeleteChar { before } => self.char_deleted(before, repeat),
            Command::ReplaceChar(ch) => self.char_replaced(ch, repeat),
            Command::ChangeSurround { from, to } => self.surround_changed(from, to),
            Command::DeleteSurround(target) => self.surround_deleted(target),
            Command::SurroundSelection(delimiter) => self.surrounded(delimiter),
            Command::JoinRows => self.rows_joined(
                if repeat < 2 {
                    1
                } else {
                    repeat - 1
                },
            ),
            Command::Put { before } => self.put(before, repeat),
            Command::SwapCase => self.case_swapped(repeat),
            Command::Undo => self.undone(),
            Command::Redo => self.redone(),
            Command::RecordMacro(register) => self.to(
                EditorState { recording: Some((register, Seq::empty())), ..s },
            ).emit(Effect::RecordingStarted(register)),
            Command::SetMark(name) => match mark_slot(name) {
                Some(_) => self.to(s.marked(name, s.cursor)),
                None => self.bell(),
            },
            Command::JumpBack => self.jumped_back(),
            Command::JumpForward => self.jumped_forward(),
            Command::Scroll(scroll) => self.scrolled(scroll),
            Command::CommandPrompt => self.emit(Effect::CommandPrompt),
            Command::InsertText(ch) => self.typed(ch),
            Command::InsertNewline => self.newline_typed(),
            Command::DeleteBack => self.deleted_back_to(s.back_one()),
            Command::DeleteWordBack => self.word_deleted_back(),
            // replays are spelled out in `dispatched`
            Command::Repeat => self,
            Command::PlayMacro(_) => self,
        }
    }
}

// ---------------------------------------------------------------------------
// keys
// ---------------------------------------------------------------------------

/// The script a replay command plays, if any.
pub open spec fn script_of(s: EditorState, command: Command<Seq<char>>) -> Option<Seq<Key>> {
    match command {
        Command::Repeat => if s.last_change.len() == 0 {
            None
        } else {
            Some(s.last_change)
        },
        Command::PlayMacro(register) => if s.macros.dom().contains(register) {
            Some(s.macros[register])
        } else {
            None
        },
        _ => None,
    }
}

/// Whether `command` replays keys.
pub open spec fn replays(command: Command<Seq<char>>) -> bool {
    command is Repeat || command is PlayMacro
}

/// What `command` does, `depth` replays deep.
pub open spec fn dispatched(
    s: EditorState,
    command: Command<Seq<char>>,
    count: Option<usize>,
    depth: int,
) -> Turn
    decreases 65 - depth, 1int, 0int, 0int,
{
    let start = Turn { state: s, effects: Seq::empty() };
    if !replays(command) {
        start.acted(command, count)
    } else {
        match script_of(s, command) {
            None => start.bell(),
            Some(script) => if depth >= MAX_REPLAY_DEPTH || depth < 0 {
                start.bell()
            } else {
                let inner = replayed(
                    EditorState { replay_depth: depth + 1, ..s },
                    script,
                    match count {
                        Some(n) => n as int,
                        None => 1,
                    },
                    0,
                    depth + 1,
                );
                inner.to(EditorState { replay_depth: depth, ..inner.state })
            },
        }
    }
}

/// What feeding `script` does, `times` times, the first time from its `i`th key on.
pub open spec fn replayed(
    s: EditorState,
    script: Seq<Key>,
    times: int,
    i: int,
    depth: int,
) -> Turn
    decreases
            65 - depth,
            4int,
            if times > 0 {
                times
            } else {
                0
            },
            script.len() - i,
{
    if times <= 0 {
        Turn { state: s, effects: Seq::empty() }
    } else if !(0 <= i < script.len()) {
        if script.len() == 0 {
            Turn { state: s, effects: Seq::empty() }
        } else {
            replayed(s, script, times - 1, 0, depth)
        }
    } else {
        let first = handled(s, script[i], depth);
        let rest = replayed(first.state, script, times, i + 1, depth);
        Turn { state: rest.state, effects: first.effects + rest.effects }
    }
}

/// A property of commands in the states they run in.
pub type Property = spec_fn(EditorState, Command<Seq<char>>) -> bool;

/// Whether `command`, or any command it replays, has the property `p`.
pub open spec fn runs_any(
    s: EditorState,
    command: Command<Seq<char>>,
    count: Option<usize>,
    depth: int,
    p: Property,
) -> bool
    decreases 65 - depth, 1int, 0int, 0int,
{
    ||| p(EditorState { replay_depth: depth, ..s }, command)
    ||| match script_of(s, command) {
        None => false,
        Some(script) => 0 <= depth < MAX_REPLAY_DEPTH && replays_any(
            EditorState { replay_depth: depth + 1, ..s },
            script,
            match count {
                Some(n) => n as int,
                None => 1,
            },
            0,
            depth + 1,
            p,
        ),
    }
}

/// Whether any key of a replay runs a command that has the property `p`.
pub open spec fn replays_any(
    s: EditorState,
    script: Seq<Key>,
    times: int,
    i: int,
    depth: int,
    p: Property,
) -> bool
    decreases
            65 - depth,
            4int,
            if times > 0 {
                times
            } else {
                0
            },
            script.len() - i,
{
    if times <= 0 {
        false
    } else if !(0 <= i < script.len()) {
        script.len() > 0 && replays_any(s, script, times - 1, 0, depth, p)
    } else {
        meets(s, script[i], depth, p) || replays_any(
            handled(s, script[i], depth).state,
            script,
            times,
            i + 1,
            depth,
            p,
        )
    }
}

/// Whether feeding `key` runs a command that has the property `p`.
pub open spec fn meets(s: EditorState, key: Key, depth: int, p: Property) -> bool
    decreases 65 - depth, 3int, 0int, 0int,
{
    if stops_recording(s, key, depth) {
        false
    } else {
        let h = s.heard(key);
        let (pending, outcome) = h.pending.fed(key, h.mode, h.keymap);
        let q = EditorState { pending, ..h };
        match outcome {
            Outcome::Command { command, count, keys } => runs_any(
                EditorState { history: q.history.begun(Some(q.cursor as usize)), ..q },
                command,
                count,
                depth,
                p,
            ),
            _ => false,
        }
    }
}

/// Commands that step back or forward in the history.
pub open spec fn reverting() -> Property {
    |s: EditorState, command: Command<Seq<char>>| command is Undo || command is Redo
}

/// Commands that take a step back in the history while changes are open that it has not
/// closed yet.
pub open spec fn reverting_midway() -> Property {
    |s: EditorState, command: Command<Seq<char>>|
        command is Undo && s.history.open.len() > 0 && s.history.cursor > 0
}

/// Commands that leave the cursor beside text they changed, where what they put
/// there, or closed up, can join into one grapheme with what stands next to it.
pub open spec fn joining() -> Property {
    |s: EditorState, command: Command<Seq<char>>|
        match command {
            Command::ReplaceChar(_)
            | Command::JoinRows
            | Command::InsertText(_)
            | Command::DeleteBack
            | Command::DeleteWordBack => true,
            Command::Operate { operator: Operator::Change, .. } => s.mode == Mode::Insert,
            _ => false,
        }
}

/// Whether `command` puts the cursor on a grapheme boundary wherever it was: changing
/// to normal or visual mode does, and so does a motion that lands.
pub open spec fn steadies(s: EditorState, command: Command<Seq<char>>, count: Option<usize>) -> bool {
    match command {
        Command::EnterNormal => s.mode != Mode::Normal,
        Command::EnterVisual(_) => true,
        Command::Move(motion) => match s.mark_resolved(motion) {
            None => false,
            Some(target) => {
                let r = s.search_remembered(target);
                motion::resolved(
                    r.text,
                    r.cursor,
                    target,
                    count,
                    r.sticky,
                    r.last_find,
                    r.last_search,
                    r.viewport,
                    r.rest(),
                ) is Some
            },
        },
        _ => false,
    }
}

/// Whether `key` puts the cursor on a grapheme boundary wherever it was.
pub open spec fn steadied(s: EditorState, key: Key, depth: int) -> bool {
    !stops_recording(s, key, depth) && match s.pending.fed(key, s.mode, s.keymap).1 {
        Outcome::Command { command, count, .. } => steadies(s, command, count),
        _ => false,
    }
}

/// Whether the keys from the `i`th on are sure to leave the cursor on a grapheme
/// boundary, if it is on one just when `legal` says: from the last key on that puts it
/// there, none may run a command that can join graphemes.
pub open spec fn sure(s: EditorState, keys: Seq<Key>, i: int, depth: int, legal: bool) -> bool
    decreases keys.len() - i,
{
    if !(0 <= i < keys.len()) {
        legal
    } else {
        sure(
            handled(s, keys[i], depth).state,
            keys,
            i + 1,
            depth,
            steadied(s, keys[i], depth) || (legal && !meets(s, keys[i], depth, joining())),
        )
    }
}

/// What running `command` does: every command runs inside an undo group, bracketed
/// by the caret on either side, and its edits are remembered.
pub open spec fn ran(
    s: EditorState,
    command: Command<Seq<char>>,
    count: Option<usize>,
    depth: int,
) -> Turn
    decreases 65 - depth, 2int, 0int, 0int,
{
    let begun = EditorState { history: s.history.begun(Some(s.cursor as usize)), ..s };
    let t = dispatched(begun, command, count, depth);
    let m = t.state.change_marked(t.effects);
    t.to(EditorState { history: m.history.ended(Some(m.cursor as usize)), ..m })
}

/// Whether `key` stops a recording here.
pub open spec fn stops_recording(s: EditorState, key: Key, depth: int) -> bool {
    &&& depth == 0
    &&& s.mode == Mode::Normal
    &&& s.pending.idle()
    &&& key == key::plain('q')
    &&& s.recording is Some
}

/// What feeding one key does, `depth` replays deep.
pub open spec fn handled(s: EditorState, key: Key, depth: int) -> Turn
    decreases 65 - depth, 3int, 0int, 0int,
{
    if stops_recording(s, key, depth) {
        let (register, script) = s.recording->0;
        Turn {
            state: EditorState {
                recording: None,
                macros: s.macros.insert(register, script),
                ..s
            },
            effects: seq![Effect::RecordingStopped(register)],
        }
    } else {
        let h = s.heard(key);
        let (pending, outcome) = h.pending.fed(key, h.mode, h.keymap);
        let p = EditorState { pending, ..h };
        match outcome {
            Outcome::Pending | Outcome::Cancelled { .. } => Turn {
                state: p,
                effects: Seq::empty(),
            },
            Outcome::Rejected { .. } => Turn { state: p, effects: seq![Effect::Bell] },
            Outcome::Command { command, count, keys } => {
                let t = ran(p, command, count, depth);
                t.to(t.state.shaped(p.mode is Visual, keys).noted(command, keys))
            },
        }
    }
}

/// What feeding `keys` from the `i`th on does.
pub open spec fn all_handled(s: EditorState, keys: Seq<Key>, i: int, depth: int) -> Turn
    decreases keys.len() - i,
{
    if !(0 <= i < keys.len()) {
        Turn { state: s, effects: Seq::empty() }
    } else {
        let first = handled(s, keys[i], depth);
        let rest = all_handled(first.state, keys, i + 1, depth);
        Turn { state: rest.state, effects: first.effects + rest.effects }
    }
}

/// Whether feeding `keys` from the `i`th on runs a command that has the property
/// `p`.
pub open spec fn any_meets(s: EditorState, keys: Seq<Key>, i: int, depth: int, p: Property) -> bool
    decreases keys.len() - i,
{
    0 <= i < keys.len() && (meets(s, keys[i], depth, p) || any_meets(
        handled(s, keys[i], depth).state,
        keys,
        i + 1,
        depth,
        p,
    ))
}

} // verus!
