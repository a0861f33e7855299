//! The reducer: `(state, Key) -> (state, Vec<Effect>)`.
//!
//! This is the only stateful type in the crate. It owns the cursor, the mode, the
//! pending parser, register and jump list, and it drives [`Document`] and
//! [`motion`].
//!
//! # Why the reducer shape earns its keep
//!
//! Because a keystroke is the unit of input and [`Resolution`] hands back the keys
//! it consumed, three features collapse into one mechanism:
//!
//! - **dot-repeat** stores the keys of the last change and re-feeds them,
//! - **macros** store the keys between `q{reg}` and `q` and re-feed them,
//! - **tests** are keystroke scripts.
//!
//! Replaying keys rather than re-executing commands is what makes `.` correct for
//! `ciwfoo<Esc>` without any special handling of the typed text.
//!
//! What each step does is stated in [`crate::state`].

mod basics;
mod edits;
mod input;
mod modes;
mod motions;
mod operators;
mod replay;
mod reverts;
mod stores;
mod surround;
use vstd::prelude::*;
use vstd::utf8::*;

use crate::buffer;
use crate::buffer::Buffer;
use crate::command::{Find, Mode};
use crate::document::{Document, DocumentState};
use crate::edit;
use crate::edit::Point;
use crate::effect::Effect;
use crate::grapheme;
use crate::grapheme::Bound;
use crate::host::{Indent, Viewport};
use crate::key::Key;
use crate::keymap;
use crate::keymap::Keymap;
use crate::pending::Pending;
use crate::state;
use crate::state::{EditorState, RegisterState, Turn};
use crate::text;
use crate::undo;

verus! {

/// The unnamed register.
///
/// `linewise` decides whether `p` pastes onto a new row or inline: the same text
/// behaves differently depending on how it was yanked.
#[derive(Debug, PartialEq, Eq)]
pub struct Register {
    pub text: String,
    pub linewise: bool,
}

impl View for Register {
    type V = RegisterState;

    open spec fn view(&self) -> RegisterState {
        RegisterState { text: encode_utf8(self.text@), linewise: self.linewise }
    }
}

impl Default for Register {
    fn default() -> (r: Self)
        ensures
            r@ == (RegisterState { text: Seq::empty(), linewise: false }),
    {
        let r = Self { text: String::new(), linewise: false };
        assert(encode_utf8(r.text@) =~= Seq::<u8>::empty());
        r
    }
}

impl Clone for Register {
    fn clone(&self) -> (r: Self)
        ensures
            r == *self,
    {
        Self { text: self.text.clone(), linewise: self.linewise }
    }
}

// ---------------------------------------------------------------------------
// the editor
// ---------------------------------------------------------------------------

/// A vi-like editor over a [`Document`].
#[derive(Debug)]
pub struct Editor {
    doc: Document,
    keymap: Keymap,
    indent: Indent,
    viewport: Viewport,
    pending: Pending,
    mode: Mode,
    cursor: usize,
    /// Remembered column for `j`/`k`. [`grapheme::STICKY_END`] means "row end".
    sticky: usize,
    /// Visual-mode anchor; the other end of the selection.
    anchor: Option<usize>,
    register: Register,
    /// Places left by far motions and host-side jumps.
    jumps: Vec<usize>,
    /// An entry being visited, or `jumps.len()` when the caret is at the present.
    jump_at: usize,
    /// Named and automatic positions, shifted with jumps through every edit.
    marks: Vec<Option<usize>>,
    last_find: Option<Find>,
    last_search: Option<(String, bool)>,
    /// Keys of the last buffer-changing command, for `.`.
    last_change: Vec<Key>,
    /// Keys accumulated while an insert session is open.
    change_keys: Option<Vec<Key>>,
    /// Keys that have shaped the current visual selection, for `.` to replay.
    visual_keys: Vec<Key>,
    recording: Option<(char, Vec<Key>)>,
    /// What each register's macro plays.
    macros: Vec<(char, Vec<Key>)>,
    replay_depth: usize,
    /// True while an insert session's undo group is open.
    insert_group: bool,
}

impl View for Editor {
    type V = EditorState;

    closed spec fn view(&self) -> EditorState {
        EditorState {
            text: self.doc@.text,
            history: self.doc@.history,
            keymap: self.keymap@,
            indent: self.indent,
            viewport: self.viewport,
            pending: self.pending@,
            mode: self.mode,
            cursor: self.cursor as int,
            sticky: self.sticky as int,
            anchor: self.anchor,
            register: self.register@,
            jumps: self.jumps@,
            jump_at: self.jump_at as int,
            marks: self.marks@,
            last_find: self.last_find,
            last_search: match self.last_search {
                Some((pattern, backward)) => Some((pattern@, backward)),
                None => None,
            },
            last_change: self.last_change@,
            change_keys: match self.change_keys {
                Some(script) => Some(script@),
                None => None,
            },
            visual_keys: self.visual_keys@,
            recording: match self.recording {
                Some((register, script)) => Some((register, script@)),
                None => None,
            },
            macros: stores::scripts_of(self.macros@),
            replay_depth: self.replay_depth as int,
            insert_group: self.insert_group,
        }
    }
}

impl Clone for Editor {
    fn clone(&self) -> (r: Self)
        ensures
            r@ == self@,
            self.wf() ==> r.wf(),
    {
        Self {
            doc: self.doc.clone(),
            keymap: self.keymap.clone(),
            indent: self.indent,
            viewport: self.viewport,
            pending: self.pending.clone(),
            mode: self.mode,
            cursor: self.cursor,
            sticky: self.sticky,
            anchor: self.anchor,
            register: self.register.clone(),
            jumps: stores::clone_offsets(&self.jumps),
            jump_at: self.jump_at,
            marks: stores::clone_marks(&self.marks),
            last_find: self.last_find,
            last_search: match &self.last_search {
                Some((pattern, backward)) => Some((pattern.clone(), *backward)),
                None => None,
            },
            last_change: keymap::clone_keys(self.last_change.as_slice()),
            change_keys: match &self.change_keys {
                Some(script) => Some(keymap::clone_keys(script.as_slice())),
                None => None,
            },
            visual_keys: keymap::clone_keys(self.visual_keys.as_slice()),
            recording: match &self.recording {
                Some((register, script)) => Some(
                    (*register, keymap::clone_keys(script.as_slice())),
                ),
                None => None,
            },
            macros: stores::clone_scripts(&self.macros),
            replay_depth: self.replay_depth,
            insert_group: self.insert_group,
        }
    }
}

impl Default for Editor {
    fn default() -> (r: Self)
        ensures
            r@ == EditorState::fresh(Seq::empty(), keymap::vim_state()),
            r.wf(),
            r@.in_step(),
            r@.origin() == r@.text,
            r@.legal(),
    {
        proof {
            buffer::lemma_empty_literal();
        }
        Self::from_text("")
    }
}

impl Editor {
    /// What every editor keeps between keys: see [`EditorState::wf`]; and its
    /// keymap is unambiguous.
    pub open spec fn wf(&self) -> bool {
        self@.wf() && self.bindings_wf()
    }

    /// Whether the keymap is unambiguous.
    pub closed spec fn bindings_wf(&self) -> bool {
        self.keymap.wf()
    }

    /// Whether the editor is sound, its cursor left aside.
    pub(crate) closed spec fn sound(&self) -> bool {
        self@.base() && self.keymap.wf()
    }

    /// The editor and the effects emitted so far.
    pub(crate) closed spec fn turn(&self, effects: Seq<Effect>) -> Turn {
        Turn { state: self@, effects }
    }

    /// An empty editor with the default scheme.
    #[must_use]
    pub fn new() -> (r: Self)
        ensures
            r@ == EditorState::fresh(Seq::empty(), keymap::vim_state()),
            r.wf(),
            r@.in_step(),
            r@.origin() == r@.text,
            r@.legal(),
    {
        Self::default()
    }

    /// An editor over `text` with the default scheme.
    #[must_use]
    pub fn from_text(text: &str) -> (r: Self)
        requires
            encode_utf8(text@).len() <= buffer::MAX_LEN,
        ensures
            r@ == EditorState::fresh(encode_utf8(text@), keymap::vim_state()),
            r.wf(),
            r@.in_step(),
            r@.origin() == r@.text,
            r@.legal(),
    {
        Self::with(text, Keymap::vim())
    }

    /// An editor over `text` with a scheme of its own.
    #[must_use]
    pub fn with(text: &str, keymap: Keymap) -> (r: Self)
        requires
            encode_utf8(text@).len() <= buffer::MAX_LEN,
            keymap.wf(),
        ensures
            r@ == EditorState::fresh(encode_utf8(text@), keymap@),
            r.wf(),
            r@.in_step(),
            r@.origin() == r@.text,
            r@.legal(),
    {
        proof {
            reveal(state::positions_lie_in);
        }
        let doc: Document = Document::from_text(text);
        let cursor: usize = grapheme::clamp(doc.buffer(), 0, Bound::PastEnd);
        let r = Self {
            doc,
            keymap,
            indent: Indent::default(),
            viewport: Viewport::default(),
            pending: Pending::new(),
            mode: Mode::Normal,
            cursor,
            sticky: 0,
            anchor: None,
            register: Register::default(),
            jumps: Vec::new(),
            jump_at: 0,
            marks: stores::unset_marks(),
            last_find: None,
            last_search: None,
            last_change: Vec::new(),
            change_keys: None,
            visual_keys: Vec::new(),
            recording: None,
            macros: stores::no_scripts(),
            replay_depth: 0,
            insert_group: false,
        };
        proof {
            assert(r@ =~= EditorState::fresh(encode_utf8(text@), r.keymap@));
            text::lemma_ends(r@.text);
            undo::fresh_history_is_in_step(None, r@.text);
        }
        r
    }

    // -- queries ---------------------------------------------------------

    /// Configure indentation before returning this editor.
    #[must_use]
    pub fn with_indent(self, indent: Indent) -> (r: Self)
        ensures
            r@ == (EditorState { indent, ..self@ }),
            self.wf() ==> r.wf(),
    {
        let mut editor = self;
        editor.indent = indent;
        editor
    }

    /// The host-supplied indentation policy used by shift operators.
    #[must_use]
    pub fn indent(&self) -> (r: Indent)
        ensures
            r == self@.indent,
    {
        self.indent
    }

    /// Replace the host-supplied indentation policy used by shift operators.
    pub fn set_indent(&mut self, indent: Indent)
        ensures
            final(self)@ == (EditorState { indent, ..old(self)@ }),
            old(self).wf() ==> final(self).wf(),
    {
        self.indent = indent;
    }

    /// Configure viewport facts before returning this editor.
    #[must_use]
    pub fn with_viewport(self, viewport: Viewport) -> (r: Self)
        ensures
            r@ == (EditorState { viewport, ..self@ }),
            self.wf() ==> r.wf(),
    {
        let mut editor = self;
        editor.viewport = viewport;
        editor
    }

    /// The viewport facts most recently supplied by the host.
    #[must_use]
    pub fn viewport(&self) -> (r: Viewport)
        ensures
            r == self@.viewport,
    {
        self.viewport
    }

    /// Replace the viewport facts most recently supplied by the host.
    pub fn set_viewport(&mut self, viewport: Viewport)
        ensures
            final(self)@ == (EditorState { viewport, ..old(self)@ }),
            old(self).wf() ==> final(self).wf(),
    {
        self.viewport = viewport;
    }

    /// The text.
    #[must_use]
    pub fn buffer(&self) -> (r: &Buffer)
        ensures
            r@ == self@.text,
            self@.base() ==> r.wf(),
    {
        self.doc.buffer()
    }

    /// The text and its history.
    #[must_use]
    pub fn document(&self) -> (r: &Document)
        ensures
            r@ == (DocumentState { text: self@.text, history: self@.history }),
            self@.base() ==> r@.wf(),
    {
        &self.doc
    }

    /// The editing mode.
    #[must_use]
    pub fn mode(&self) -> (r: Mode)
        ensures
            r == self@.mode,
    {
        self.mode
    }

    /// Cursor position as a byte offset.
    #[must_use]
    pub fn cursor(&self) -> (r: usize)
        ensures
            r == self@.cursor,
    {
        self.cursor
    }

    /// Remembered jump positions, oldest first.
    #[must_use]
    pub fn jumps(&self) -> (r: &[usize])
        ensures
            r@ == self@.jumps,
    {
        self.jumps.as_slice()
    }

    /// The offset remembered under a named or automatic mark name.
    #[must_use]
    pub fn mark(&self, name: char) -> (r: Option<usize>)
        requires
            self.wf(),
        ensures
            r == self@.mark(name),
    {
        self.mark_offset(name)
    }

    pub(crate) fn mark_offset(&self, name: char) -> (r: Option<usize>)
        requires
            self@.base(),
        ensures
            r == self@.mark(name),
    {
        proof {
            reveal(state::positions_lie_in);
        }
        match mark_index(name) {
            Some(index) => self.marks[index],
            None => None,
        }
    }

    /// Keys of a partially-typed command, for a `showcmd` indicator.
    #[must_use]
    pub fn pending_keys(&self) -> (r: &[Key])
        ensures
            r@ == self@.pending.keys,
    {
        self.pending.keys()
    }

    /// The unnamed register.
    #[must_use]
    pub fn register(&self) -> (r: &Register)
        ensures
            r@ == self@.register,
    {
        &self.register
    }

    /// The key bindings.
    #[must_use]
    pub fn keymap(&self) -> (r: &Keymap)
        ensures
            r@ == self@.keymap,
            self.wf() ==> r.wf(),
    {
        &self.keymap
    }

    /// The key bindings, to change them.
    pub fn keymap_mut(&mut self) -> (r: &mut Keymap)
        ensures
            r@ == old(self)@.keymap,
            old(self).wf() ==> r.wf(),
            final(self)@ == (EditorState { keymap: final(r)@, ..old(self)@ }),
            old(self).wf() && final(r).wf() ==> final(self).wf(),
    {
        &mut self.keymap
    }

    /// The register being recorded into, if any.
    #[must_use]
    pub fn recording(&self) -> (r: Option<char>)
        ensures
            r == match self@.recording {
                Some((register, _)) => Some(register),
                None => None,
            },
    {
        match &self.recording {
            Some((register, _)) => Some(*register),
            None => None,
        }
    }

    /// Keys `.` would replay.
    #[must_use]
    pub fn last_change(&self) -> (r: &[Key])
        ensures
            r@ == self@.last_change,
    {
        self.last_change.as_slice()
    }

    /// The position of the cursor.
    #[must_use]
    pub fn cursor_point(&self) -> (r: Point)
        requires
            self.wf(),
        ensures
            r == edit::point_at(self@.text, self@.cursor),
    {
        self.buffer().byte_to_point(self.cursor)
    }
}

pub(crate) fn mark_index(name: char) -> (r: Option<usize>)
    ensures
        match r {
            Some(index) => state::mark_slot(name) == Some(index as int) && index
                < state::MARK_COUNT,
            None => state::mark_slot(name) is None,
        },
{
    if 'a' <= name && name <= 'z' {
        Some((name as u8 - 97) as usize)
    } else {
        match name {
            '<' => Some(26),
            '>' => Some(27),
            '[' => Some(28),
            ']' => Some(29),
            '^' => Some(30),
            _ => None,
        }
    }
}

} // verus!
