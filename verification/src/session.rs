//! A terminal session: an editor, the window it is seen through, a prompt and a log.
//!
//! Everything the core refuses to own shows up here as real work, short of the
//! terminal and the file themselves: translating key presses, owning the viewport
//! and fulfilling scrolls, answering `:` prompts.

use vstd::prelude::*;
use vstd::utf8::encode_utf8;

use crate::buffer;
use crate::command::{Mode, Scroll};
use crate::editor::Editor;
use crate::effect::Effect;
use crate::host::{Indent, Viewport};
use crate::key;
use crate::key::{Key, KeyCode, Mods};
use crate::keymap;
use crate::screen;
use crate::snapshot;
use crate::split;
use crate::state;
use crate::state::EditorState;
use crate::strings;
use crate::strings::to_decimal;
use crate::text;

verus! {

/// Columns one `>>` moves by. vim's `shiftwidth`.
pub const SHIFTWIDTH: usize = 4;

/// How many lines the log keeps.
pub const LOG_CAP: usize = 500;

/// How many columns the log takes, while it is shown.
pub const LOG_WIDTH: u16 = 38;

// ---------------------------------------------------------------------------
// key presses
// ---------------------------------------------------------------------------

/// A key of a terminal's keyboard.
#[derive(Debug, Clone, Copy, PartialEq, Eq, Structural)]
pub enum Code {
    Char(char),
    Esc,
    Enter,
    Tab,
    BackTab,
    Backspace,
    Delete,
    Insert,
    Left,
    Right,
    Up,
    Down,
    Home,
    End,
    PageUp,
    PageDown,
    F(u8),
    /// A key the editor has no use for.
    Other,
}

/// A key press, as a terminal reports it.
#[derive(Debug, Clone, Copy, PartialEq, Eq, Structural)]
pub struct Press {
    pub code: Code,
    pub ctrl: bool,
    pub alt: bool,
    pub shift: bool,
}

/// The editor's name for a key.
pub open spec fn code_of(code: Code) -> Option<KeyCode> {
    match code {
        Code::Char(ch) => Some(KeyCode::Char(ch)),
        Code::Esc => Some(KeyCode::Esc),
        Code::Enter => Some(KeyCode::Enter),
        Code::Tab | Code::BackTab => Some(KeyCode::Tab),
        Code::Backspace => Some(KeyCode::Backspace),
        Code::Delete => Some(KeyCode::Delete),
        Code::Insert => Some(KeyCode::Insert),
        Code::Left => Some(KeyCode::Left),
        Code::Right => Some(KeyCode::Right),
        Code::Up => Some(KeyCode::Up),
        Code::Down => Some(KeyCode::Down),
        Code::Home => Some(KeyCode::Home),
        Code::End => Some(KeyCode::End),
        Code::PageUp => Some(KeyCode::PageUp),
        Code::PageDown => Some(KeyCode::PageDown),
        Code::F(n) => Some(KeyCode::F(n)),
        Code::Other => None,
    }
}

/// The key that a press is. A terminal reports shift beside a character that it has
/// already shifted, and a back tab for a shifted tab.
pub open spec fn translated(press: Press) -> Option<Key> {
    match code_of(press.code) {
        Some(code) => Some(
            key::normal(
                code,
                key::flags(press.ctrl, press.alt, press.shift || press.code == Code::BackTab),
            ),
        ),
        None => None,
    }
}

/// The key that a press is.
pub fn translate(press: Press) -> (r: Option<Key>)
    ensures
        r == translated(press),
{
    let code: KeyCode = match press.code {
        Code::Char(ch) => KeyCode::Char(ch),
        Code::Esc => KeyCode::Esc,
        Code::Enter => KeyCode::Enter,
        Code::Tab => KeyCode::Tab,
        Code::BackTab => KeyCode::Tab,
        Code::Backspace => KeyCode::Backspace,
        Code::Delete => KeyCode::Delete,
        Code::Insert => KeyCode::Insert,
        Code::Left => KeyCode::Left,
        Code::Right => KeyCode::Right,
        Code::Up => KeyCode::Up,
        Code::Down => KeyCode::Down,
        Code::Home => KeyCode::Home,
        Code::End => KeyCode::End,
        Code::PageUp => KeyCode::PageUp,
        Code::PageDown => KeyCode::PageDown,
        Code::F(n) => KeyCode::F(n),
        Code::Other => {
            return None;
        },
    };
    let shift: bool = press.shift || press.code == Code::BackTab;
    Some(Key::new(code, Mods::of(press.ctrl, press.alt, shift)))
}

// ---------------------------------------------------------------------------
// the log
// ---------------------------------------------------------------------------

/// The colours a session is shown in.
#[derive(Debug, Clone, Copy, PartialEq, Eq, Structural)]
pub enum Colour {
    Black,
    Blue,
    Cyan,
    DarkGray,
    Green,
    Magenta,
    Red,
    Yellow,
}

/// A line of the log.
#[derive(Debug)]
pub struct LogLine {
    pub text: String,
    pub colour: Colour,
}

/// The lines that `v` holds.
pub open spec fn log_views(v: Seq<LogLine>) -> Seq<(Seq<char>, Colour)> {
    Seq::new(v.len(), |i: int| (v[i].text@, v[i].colour))
}

/// An effect, as the log shows it.
pub open spec fn log_line(effect: Effect) -> (Seq<char>, Colour) {
    match effect {
        Effect::Edit(e) => (
            "edit  "@ + strings::decimal(e.start_byte as int) + ".."@ + strings::decimal(
                e.old_end_byte as int,
            ) + "→"@ + strings::decimal(e.new_end_byte as int) + "  ("@ + strings::decimal(
                e.start_point.row as int,
            ) + ","@ + strings::decimal(e.start_point.col as int) + ")→("@ + strings::decimal(
                e.new_end_point.row as int,
            ) + ","@ + strings::decimal(e.new_end_point.col as int) + ")"@,
            Colour::Green,
        ),
        Effect::ModeChanged(mode) => ("mode  "@ + snapshot::mode_name(mode), Colour::Blue),
        Effect::Scroll(scroll) => ("scroll "@ + snapshot::scroll_name(scroll), Colour::Cyan),
        Effect::CommandPrompt => ("command prompt :"@, Colour::Yellow),
        Effect::Bell => ("bell"@, Colour::Red),
        Effect::RecordingStarted(register) => ("recording @"@.push(register), Colour::Red),
        Effect::RecordingStopped(register) => ("recorded  @"@.push(register), Colour::Red),
    }
}

fn describe(effect: &Effect) -> (r: LogLine)
    ensures
        (r.text@, r.colour) == log_line(*effect),
{
    match effect {
        Effect::Edit(e) => {
            let mut out: String = "edit  ".to_owned();
            out.push_str(to_decimal(e.start_byte).as_str());
            out.push_str("..");
            out.push_str(to_decimal(e.old_end_byte).as_str());
            out.push_str("→");
            out.push_str(to_decimal(e.new_end_byte).as_str());
            out.push_str("  (");
            out.push_str(to_decimal(e.start_point.row).as_str());
            out.push_str(",");
            out.push_str(to_decimal(e.start_point.col).as_str());
            out.push_str(")→(");
            out.push_str(to_decimal(e.new_end_point.row).as_str());
            out.push_str(",");
            out.push_str(to_decimal(e.new_end_point.col).as_str());
            out.push_str(")");
            LogLine { text: out, colour: Colour::Green }
        },
        Effect::ModeChanged(mode) => {
            let mut out: String = "mode  ".to_owned();
            out.push_str(snapshot::name_mode(*mode));
            LogLine { text: out, colour: Colour::Blue }
        },
        Effect::Scroll(scroll) => {
            let mut out: String = "scroll ".to_owned();
            out.push_str(snapshot::name_scroll(*scroll));
            LogLine { text: out, colour: Colour::Cyan }
        },
        Effect::CommandPrompt => LogLine {
            text: "command prompt :".to_owned(),
            colour: Colour::Yellow,
        },
        Effect::Bell => LogLine { text: "bell".to_owned(), colour: Colour::Red },
        Effect::RecordingStarted(register) => {
            let mut out: String = "recording @".to_owned();
            out.push(*register);
            LogLine { text: out, colour: Colour::Red }
        },
        Effect::RecordingStopped(register) => {
            let mut out: String = "recorded  @".to_owned();
            out.push(*register);
            LogLine { text: out, colour: Colour::Red }
        },
    }
}

// ---------------------------------------------------------------------------
// the model
// ---------------------------------------------------------------------------

/// A session, as a value.
#[verifier::ext_equal]
pub struct SessionState {
    pub editor: EditorState,
    /// The file's path, as it is shown.
    pub path: Seq<char>,
    /// First visible row. The core does not own this.
    pub top: int,
    /// Rows the text has room for, from the last frame.
    pub height: int,
    pub log: Seq<(Seq<char>, Colour)>,
    /// What has been typed at the prompt, while there is one.
    pub prompt: Option<Seq<char>>,
    pub message: Seq<char>,
    pub modified: bool,
    pub quit: bool,
    pub show_log: bool,
}

impl SessionState {
    /// A session over `text`.
    pub open spec fn opened(path: Seq<char>, text: Seq<char>, message: Seq<char>) -> SessionState {
        SessionState {
            editor: EditorState {
                indent: Indent {
                    shift_width: SHIFTWIDTH,
                    tab_width: screen::TABSTOP,
                    use_tabs: false,
                },
                viewport: Viewport { top_row: 0, height: 1 },
                ..EditorState::fresh(encode_utf8(text), keymap::vim_state())
            },
            path,
            top: 0,
            height: 1,
            log: Seq::empty(),
            prompt: None,
            message,
            modified: false,
            quit: false,
            show_log: true,
        }
    }

    /// The row the cursor is on.
    pub open spec fn row(self) -> int {
        text::row_of(self.editor.text, self.editor.cursor)
    }

    /// The window moved to `top`, and the editor told of it.
    pub open spec fn moved_to(self, top: int) -> SessionState {
        SessionState {
            top,
            editor: EditorState {
                viewport: Viewport { top_row: top as usize, height: self.height as usize },
                ..self.editor
            },
            ..self
        }
    }

    /// The window scrolled.
    pub open spec fn scrolled(self, scroll: Scroll) -> SessionState {
        self.moved_to(
            screen::scrolled_top(
                self.top,
                self.height,
                text::rows(self.editor.text),
                self.row(),
                scroll,
            ),
        )
    }

    /// The cursor brought into view.
    pub open spec fn followed(self) -> SessionState {
        self.moved_to(screen::followed_top(self.top, self.height, self.row()))
    }

    /// An effect added to the log, which forgets its oldest lines.
    pub open spec fn logged(self, effect: Effect) -> SessionState {
        let log = self.log.push(log_line(effect));
        SessionState {
            log: if log.len() > LOG_CAP {
                log.skip(log.len() - LOG_CAP)
            } else {
                log
            },
            ..self
        }
    }

    /// After one effect of a key.
    pub open spec fn noticed(self, effect: Effect) -> SessionState {
        let s = self.logged(effect);
        match effect {
            Effect::Edit(_) => SessionState { modified: true, ..s },
            Effect::Scroll(scroll) => s.scrolled(scroll),
            Effect::CommandPrompt => SessionState { prompt: Some(Seq::empty()), ..s },
            Effect::Bell => SessionState { message: "bell"@, ..s },
            Effect::ModeChanged(_)
            | Effect::RecordingStarted(_)
            | Effect::RecordingStopped(_) => s,
        }
    }

    /// After the first `n` effects of a key.
    pub open spec fn noticed_all(self, effects: Seq<Effect>, n: int) -> SessionState
        decreases n,
    {
        if n <= 0 {
            self
        } else {
            self.noticed_all(effects, n - 1).noticed(effects[n - 1])
        }
    }

    /// After a key the editor handles. The core carries the cursor for page moves and
    /// leaves the window to the host, so a scroll is not overridden at once.
    pub open spec fn edited(self, key: Key) -> SessionState {
        let t = state::handled(self.editor, key, self.editor.replay_depth);
        let s = (SessionState { editor: t.state, ..self }).noticed_all(
            t.effects,
            t.effects.len() as int,
        );
        if scrolls(t.effects, t.effects.len() as int) {
            s
        } else {
            s.followed()
        }
    }

    /// After the prompt's answer, and whether the text is to be written.
    pub open spec fn answered(self, input: Seq<char>) -> (SessionState, bool) {
        let answer = split::trimmed(input);
        if answer.len() == 0 {
            (self, false)
        } else if answer == "w"@ {
            (self, true)
        } else if answer == "q"@ && self.modified {
            (
                SessionState { message: "unsaved changes — `:q!` to discard"@, ..self },
                false,
            )
        } else if answer == "q"@ || answer == "q!"@ {
            (SessionState { quit: true, ..self }, false)
        } else if answer == "wq"@ || answer == "x"@ {
            (SessionState { quit: true, ..self }, true)
        } else {
            (
                SessionState {
                    message: "`:"@ + answer
                        + "` is a host concern, and this host only knows w, q, q!, wq"@,
                    ..self
                },
                false,
            )
        }
    }

    /// After a key at the prompt, and whether the text is to be written.
    pub open spec fn prompted(self, input: Seq<char>, code: Code) -> (SessionState, bool) {
        match code {
            Code::Esc => (SessionState { prompt: None, ..self }, false),
            Code::Enter => (SessionState { prompt: None, ..self }).answered(input),
            Code::Backspace => (
                SessionState {
                    prompt: if input.len() == 0 {
                        None
                    } else {
                        Some(input.drop_last())
                    },
                    ..self
                },
                false,
            ),
            Code::Char(ch) => (SessionState { prompt: Some(input.push(ch)), ..self }, false),
            _ => (self, false),
        }
    }

    /// After a key press, and whether the text is to be written. `F10` and `F2` come
    /// before everything else, so that no keymap can swallow them; `<C-c>` is claimed
    /// in normal mode alone, for it is bound elsewhere.
    pub open spec fn pressed(self, press: Press) -> (SessionState, bool) {
        let s = SessionState { message: Seq::empty(), ..self };
        if press.code == Code::F(10) {
            (SessionState { quit: true, ..s }, false)
        } else if press.code == Code::F(2) {
            (SessionState { show_log: !s.show_log, ..s }, false)
        } else {
            match (s.prompt, translated(press)) {
                (Some(input), _) => s.prompted(input, press.code),
                (None, None) => (s, false),
                (None, Some(key)) => if s.editor.mode == Mode::Normal && key
                    == (Key { code: KeyCode::Char('c'), mods: Mods::CTRL }) {
                    (SessionState { quit: true, ..s }, false)
                } else {
                    (s.edited(key), false)
                },
            }
        }
    }
}

/// Whether one of the first `n` effects scrolls.
pub open spec fn scrolls(effects: Seq<Effect>, n: int) -> bool {
    exists|i: int| 0 <= i < n && #[trigger] effects[i] is Scroll
}

// ---------------------------------------------------------------------------
// the session
// ---------------------------------------------------------------------------

/// An editor, the window it is seen through, a prompt and a log.
pub struct Session {
    editor: Editor,
    path: String,
    top: usize,
    height: usize,
    log: Vec<LogLine>,
    prompt: Option<Vec<char>>,
    message: String,
    modified: bool,
    quit: bool,
    show_log: bool,
}

impl View for Session {
    type V = SessionState;

    closed spec fn view(&self) -> SessionState {
        SessionState {
            editor: self.editor@,
            path: self.path@,
            top: self.top as int,
            height: self.height as int,
            log: log_views(self.log@),
            prompt: match self.prompt {
                Some(input) => Some(input@),
                None => None,
            },
            message: self.message@,
            modified: self.modified,
            quit: self.quit,
            show_log: self.show_log,
        }
    }
}

impl Session {
    /// What every session keeps: its editor is sound, and its log is no longer than
    /// [`LOG_CAP`].
    pub closed spec fn wf(&self) -> bool {
        self.editor.wf() && self.log.len() <= LOG_CAP
    }

    /// A session over `text`, which was read from `path`.
    pub fn new(path: String, text: &str, message: String) -> (r: Session)
        requires
            encode_utf8(text@).len() <= buffer::MAX_LEN,
        ensures
            r.wf(),
            r@ == SessionState::opened(path@, text@, message@),
    {
        let editor: Editor = Editor::from_text(text).with_indent(
            Indent { shift_width: SHIFTWIDTH, tab_width: screen::TABSTOP, use_tabs: false },
        ).with_viewport(Viewport { top_row: 0, height: 1 });
        let r: Session = Session {
            editor,
            path,
            top: 0,
            height: 1,
            log: Vec::new(),
            prompt: None,
            message,
            modified: false,
            quit: false,
            show_log: true,
        };
        assert(r@ =~= SessionState::opened(path@, text@, message@));
        r
    }

    /// Whether the session is over.
    pub fn is_over(&self) -> (r: bool)
        ensures
            r == self@.quit,
    {
        self.quit
    }

    /// The mode of the editor.
    pub fn mode(&self) -> (r: Mode)
        ensures
            r == self@.editor.mode,
    {
        self.editor.mode()
    }

    /// The text, as it is to be written.
    pub fn text(&self) -> (r: String)
        requires
            self.wf(),
        ensures
            encode_utf8(r@) == self@.editor.text,
    {
        self.editor.buffer().to_string()
    }

    pub(crate) fn editor(&self) -> (r: &Editor)
        ensures
            r@ == self@.editor,
            self.wf() ==> r.wf(),
    {
        &self.editor
    }

    pub(crate) fn path(&self) -> (r: &str)
        ensures
            r@ == self@.path,
    {
        self.path.as_str()
    }

    pub(crate) fn top(&self) -> (r: usize)
        ensures
            r == self@.top,
    {
        self.top
    }

    pub(crate) fn height(&self) -> (r: usize)
        ensures
            r == self@.height,
    {
        self.height
    }

    pub(crate) fn log(&self) -> (r: &[LogLine])
        ensures
            log_views(r@) == self@.log,
    {
        self.log.as_slice()
    }

    pub(crate) fn prompt(&self) -> (r: Option<&[char]>)
        ensures
            match r {
                Some(input) => self@.prompt == Some(input@),
                None => self@.prompt is None,
            },
    {
        match &self.prompt {
            Some(input) => Some(input.as_slice()),
            None => None,
        }
    }

    pub(crate) fn message(&self) -> (r: &str)
        ensures
            r@ == self@.message,
    {
        self.message.as_str()
    }

    pub(crate) fn is_modified(&self) -> (r: bool)
        ensures
            r == self@.modified,
    {
        self.modified
    }

    pub(crate) fn shows_log(&self) -> (r: bool)
        ensures
            r == self@.show_log,
    {
        self.show_log
    }

    // -- viewport ------------------------------------------------------------

    fn move_to(&mut self, top: usize)
        requires
            old(self).wf(),
        ensures
            final(self).wf(),
            final(self)@ == old(self)@.moved_to(top as int),
    {
        self.top = top;
        self.editor.set_viewport(Viewport { top_row: top, height: self.height });
        assert(self@ =~= old(self)@.moved_to(top as int));
    }

    /// The window has become `height` rows high.
    pub fn resize(&mut self, height: usize)
        requires
            old(self).wf(),
        ensures
            final(self).wf(),
            final(self)@ == (SessionState { height: height as int, ..old(self)@ }).moved_to(
                old(self)@.top,
            ),
    {
        self.height = height;
        let top: usize = self.top;
        self.move_to(top);
        assert(self@ =~= (SessionState { height: height as int, ..old(self)@ }).moved_to(
            old(self)@.top,
        ));
    }

    fn apply_scroll(&mut self, scroll: Scroll)
        requires
            old(self).wf(),
        ensures
            final(self).wf(),
            final(self)@ == old(self)@.scrolled(scroll),
    {
        proof {
            text::lemma_row_of(self@.editor.text, self@.editor.cursor);
        }
        let rows: usize = self.editor.buffer().len_rows();
        let row: usize = self.editor.cursor_point().row;
        let top: usize = screen::scroll_top(self.top, self.height, rows, row, scroll);
        self.move_to(top);
    }

    fn follow_cursor(&mut self)
        requires
            old(self).wf(),
        ensures
            final(self).wf(),
            final(self)@ == old(self)@.followed(),
    {
        proof {
            text::lemma_row_of(self@.editor.text, self@.editor.cursor);
        }
        let rows: usize = self.editor.buffer().len_rows();
        let row: usize = self.editor.cursor_point().row;
        let top: usize = screen::follow_top(self.top, self.height, row);
        self.move_to(top);
    }

    // -- input ---------------------------------------------------------------

    fn log_effect(&mut self, effect: &Effect)
        requires
            old(self).wf(),
        ensures
            final(self).wf(),
            final(self)@ == old(self)@.logged(*effect),
    {
        let line: LogLine = describe(effect);
        let ghost longer = old(self)@.log.push(log_line(*effect));
        self.log.push(line);
        assert(log_views(self.log@) =~= longer);
        if self.log.len() > LOG_CAP {
            let _ = self.log.remove(0);
            assert(log_views(self.log@) =~= longer.skip(longer.len() - LOG_CAP));
        }
        assert(self@ =~= old(self)@.logged(*effect));
    }

    fn notice(&mut self, effect: &Effect)
        requires
            old(self).wf(),
        ensures
            final(self).wf(),
            final(self)@ == old(self)@.noticed(*effect),
    {
        self.log_effect(effect);
        match effect {
            Effect::Edit(_) => {
                self.modified = true;
            },
            Effect::Scroll(scroll) => {
                self.apply_scroll(*scroll);
            },
            Effect::CommandPrompt => {
                self.prompt = Some(Vec::new());
            },
            Effect::Bell => {
                self.message = "bell".to_owned();
            },
            Effect::ModeChanged(_)
            | Effect::RecordingStarted(_)
            | Effect::RecordingStopped(_) => {},
        }
        assert(self@ =~= old(self)@.noticed(*effect));
    }

    fn edit(&mut self, key: Key)
        requires
            old(self).wf(),
        ensures
            final(self).wf(),
            final(self)@ == old(self)@.edited(key),
    {
        let effects: Vec<Effect> = self.editor.handle_key(key);
        let ghost begun = self@;
        proof {
            let t = state::handled(old(self)@.editor, key, old(self)@.editor.replay_depth);
            assert(begun =~= (SessionState { editor: t.state, ..old(self)@ }));
        }
        let mut scrolled: bool = false;
        let mut i: usize = 0;
        while i < effects.len()
            invariant
                i <= effects.len(),
                self.wf(),
                self@ == begun.noticed_all(effects@, i as int),
                scrolled == scrolls(effects@, i as int),
            decreases effects.len() - i,
        {
            self.notice(&effects[i]);
            if let Effect::Scroll(_) = effects[i] {
                scrolled = true;
            }
            proof {
                let n = i + 1;
                assert(effects@[i as int] is Scroll ==> scrolls(effects@, n));
                if scrolls(effects@, i as int) {
                    let k = choose|k: int| 0 <= k < i && #[trigger] effects@[k] is Scroll;
                    assert(0 <= k < n && effects@[k] is Scroll);
                }
                if scrolls(effects@, n) && !(effects@[i as int] is Scroll) {
                    let k = choose|k: int| 0 <= k < n && #[trigger] effects@[k] is Scroll;
                    assert(k < i);
                }
            }
            i += 1;
        }
        if !scrolled {
            self.follow_cursor();
        }
    }

    fn run_prompt(&mut self, input: &Vec<char>) -> (r: bool)
        requires
            old(self).wf(),
        ensures
            final(self).wf(),
            (final(self)@, r) == old(self)@.answered(input@),
    {
        let answer: Vec<char> = split::trim(input.as_slice());
        let known: &[char] = answer.as_slice();
        if answer.len() == 0 {
            return false;
        }
        if strings::spell(known, "w") {
            return true;
        }
        let quits: bool = strings::spell(known, "q");
        if quits && self.modified {
            self.message = "unsaved changes — `:q!` to discard".to_owned();
            assert(self@ =~= old(self)@.answered(input@).0);
            return false;
        }
        if quits || strings::spell(known, "q!") {
            self.quit = true;
            assert(self@ =~= old(self)@.answered(input@).0);
            return false;
        }
        if strings::spell(known, "wq") || strings::spell(known, "x") {
            self.quit = true;
            assert(self@ =~= old(self)@.answered(input@).0);
            return true;
        }
        let other: String = strings::from_chars(known);
        let mut message: String = "`:".to_owned();
        message.push_str(other.as_str());
        message.push_str("` is a host concern, and this host only knows w, q, q!, wq");
        self.message = message;
        assert(self@ =~= old(self)@.answered(input@).0);
        false
    }

    fn on_prompt_key(&mut self, input: Vec<char>, code: Code) -> (r: bool)
        requires
            old(self).wf(),
            old(self)@.prompt == Some(input@),
        ensures
            final(self).wf(),
            (final(self)@, r) == old(self)@.prompted(input@, code),
    {
        match code {
            Code::Esc => {
                self.prompt = None;
                assert(self@ =~= old(self)@.prompted(input@, code).0);
                false
            },
            Code::Enter => {
                self.prompt = None;
                assert(self@ =~= (SessionState { prompt: None, ..old(self)@ }));
                self.run_prompt(&input)
            },
            Code::Backspace => {
                let mut left: Vec<char> = input;
                if left.len() == 0 {
                    self.prompt = None;
                } else {
                    let _ = left.pop();
                    self.prompt = Some(left);
                }
                assert(self@ =~= old(self)@.prompted(input@, code).0);
                false
            },
            Code::Char(ch) => {
                let mut longer: Vec<char> = input;
                longer.push(ch);
                self.prompt = Some(longer);
                assert(self@ =~= old(self)@.prompted(input@, code).0);
                false
            },
            _ => {
                self.prompt = Some(input);
                assert(self@ =~= old(self)@);
                false
            },
        }
    }

    /// Take a key press. Whether the text is to be written: the host does that, and
    /// says how it went with [`Session::saved`].
    pub fn on_key(&mut self, press: Press) -> (r: bool)
        requires
            old(self).wf(),
        ensures
            final(self).wf(),
            (final(self)@, r) == old(self)@.pressed(press),
    {
        self.message = String::new();
        let ghost s = SessionState { message: Seq::empty(), ..old(self)@ };
        assert(self@ =~= s);
        if press.code == Code::F(10) {
            self.quit = true;
            assert(self@ =~= old(self)@.pressed(press).0);
            return false;
        }
        if press.code == Code::F(2) {
            self.show_log = !self.show_log;
            assert(self@ =~= old(self)@.pressed(press).0);
            return false;
        }
        if self.prompt.is_some() {
            let taken: Option<Vec<char>> = self.prompt.clone();
            if let Some(input) = taken {
                return self.on_prompt_key(input, press.code);
            }
        }
        if let Some(key) = translate(press) {
            let interrupt: Key = Key { code: KeyCode::Char('c'), mods: Mods::CTRL };
            if self.editor.mode() == Mode::Normal && key == interrupt {
                self.quit = true;
                assert(self@ =~= old(self)@.pressed(press).0);
            } else {
                self.edit(key);
            }
        }
        false
    }

    /// The host has written the text, or could not and says why.
    pub fn saved(&mut self, outcome: Result<(), String>)
        requires
            old(self).wf(),
        ensures
            final(self).wf(),
            final(self)@ == (match outcome {
                Ok(_) => SessionState {
                    modified: false,
                    message: "wrote "@ + old(self)@.path,
                    ..old(self)@
                },
                Err(reason) => SessionState {
                    message: "write failed: "@ + reason@,
                    ..old(self)@
                },
            }),
    {
        match &outcome {
            Ok(_) => {
                let mut message: String = "wrote ".to_owned();
                message.push_str(self.path.as_str());
                self.message = message;
                self.modified = false;
                assert(self@ =~= (SessionState {
                    modified: false,
                    message: "wrote "@ + old(self)@.path,
                    ..old(self)@
                }));
            },
            Err(reason) => {
                let mut message: String = "write failed: ".to_owned();
                message.push_str(reason.as_str());
                self.message = message;
                assert(self@ =~= (SessionState {
                    message: "write failed: "@ + reason@,
                    ..old(self)@
                }));
            },
        }
    }
}

// ---------------------------------------------------------------------------
// promises
// ---------------------------------------------------------------------------

/// `F10` quits from anywhere, whatever the keymap, the mode or the prompt.
pub proof fn f10_always_quits(s: SessionState, press: Press)
    requires
        press.code == Code::F(10),
    ensures
        s.pressed(press).0.quit,
{
}

/// `<C-c>` quits from normal mode, unless a prompt is being answered.
pub proof fn control_c_quits_from_normal_mode(s: SessionState, press: Press)
    requires
        s.editor.mode == Mode::Normal,
        s.prompt is None,
        press == (Press { code: Code::Char('c'), ctrl: true, alt: false, shift: false }),
    ensures
        s.pressed(press).0.quit,
{
}

/// A session asks for its text to be written only from the prompt, and never while it
/// leaves the prompt open.
pub proof fn only_an_answer_saves(s: SessionState, press: Press)
    requires
        s.pressed(press).1,
    ensures
        s.prompt is Some,
        press.code == Code::Enter,
        s.pressed(press).0.prompt is None,
{
}

/// A key that scrolls nothing leaves the cursor in view.
pub proof fn an_edit_leaves_the_cursor_in_view(s: SessionState, key: Key)
    requires
        1 <= s.height,
        ({
            let t = state::handled(s.editor, key, s.editor.replay_depth);
            !scrolls(t.effects, t.effects.len() as int)
        }),
    ensures
        s.edited(key).top <= s.edited(key).row() < s.edited(key).top + s.edited(key).height,
{
    let t = state::handled(s.editor, key, s.editor.replay_depth);
    let begun = SessionState { editor: t.state, ..s };
    lemma_window_kept(begun, t.effects, t.effects.len() as int);
    let after = begun.noticed_all(t.effects, t.effects.len() as int);
    screen::following_shows_the_cursor(after.top, after.height, after.row());
}

proof fn lemma_window_kept(s: SessionState, effects: Seq<Effect>, n: int)
    requires
        n <= effects.len(),
        !scrolls(effects, n),
    ensures
        ({
            let t = s.noticed_all(effects, n);
            t.top == s.top && t.height == s.height && t.editor == s.editor
        }),
    decreases n,
{
    if n > 0 {
        assert(!(effects[n - 1] is Scroll));
        assert(!scrolls(effects, n - 1)) by {
            if scrolls(effects, n - 1) {
                let k = choose|k: int| 0 <= k < n - 1 && #[trigger] effects[k] is Scroll;
                assert(0 <= k < n && effects[k] is Scroll);
            }
        }
        lemma_window_kept(s, effects, n - 1);
    }
}

} // verus!
