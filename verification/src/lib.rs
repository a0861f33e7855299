//! Headless editing primitives for a vi-like core.
//!
//! No rendering, no terminal, no filesystem, no async. Layers, each ignorant of
//! the ones above it:
//!
//! | Layer | Knows about | Does not know about |
//! |---|---|---|
//! | [`Buffer`] | bytes, rows, ropes | modes, keys, undo |
//! | [`LinearHistory`] | [`Change`]s | ropes, keys, rendering |
//! | [`Document`] | both of the above | modes, keys, rendering |
//! | [`Keymap`] | key sequences and [`Binding`]s | buffers, cursors |
//! | [`Pending`] | vi's command grammar | buffers, cursors |
//! | [`Editor`] | all of the above | displays, files |
//!
//! Around them stand the fixture grammar ([`fixtures`], [`snapshot`], [`oracle`]) and
//! what a terminal host does with an editor ([`session`], [`screen`], [`frame`]).
//!
//! # Coordinates
//!
//! Everything in the buffer layer is a **byte** offset, and every [`Point`] column
//! is a byte offset within its row. That is what makes an [`Edit`] convertible field
//! for field into what an incremental parser takes.
//!
//! Character space (grapheme-correct `l`, `x`, `~`) belongs to the motion layer;
//! display-width space (wide characters, tabs) belongs to the view layer.
//!
//! Rows are counted by LF only, matching the parser. Line endings are preserved
//! byte for byte; a `\r` is ordinary content at the end of a row.
//!
//! # Models
//!
//! Text is a sequence of bytes that is valid UTF-8. The state of an editor is
//! [`state::EditorState`], and what each command and key does to it is a function
//! there; contracts of executable functions equate views with those functions. What
//! holds across commands is stated in [`undo`], [`promises`], [`caret`], [`record`],
//! [`repeat`], [`dot`], [`tame`] and [`written`].
//!
//! What rows are is stated in [`lines`]. What a key does, seen from outside, is stated
//! by counting words, targets, brackets, rows and graphemes in the text itself: of
//! motions in [`aiming`], [`words`], [`finding`], [`seeking`], [`pairing`] and
//! [`places`]; of operators in [`spans`], [`reaching`], [`holding`] and [`shifting`]; of
//! the other commands in [`puts`], [`joins`], [`inserts`] and [`enclosing`]; and of the
//! keys themselves in [`grammar`] and [`scheme`]. They speak of states before and after
//! a key, as [`doing`] has them.

pub mod aiming;
pub mod buffer;
pub mod caret;
pub mod command;
pub mod document;
pub mod doing;
pub mod dot;
pub mod edit;
pub mod editor;
pub mod effect;
pub mod enclosing;
pub mod finding;
pub mod fixtures;
pub mod frame;
pub mod grammar;
pub mod grapheme;
pub mod history;
pub mod holding;
pub mod host;
pub mod indent;
pub mod inserts;
pub mod joins;
pub mod key;
pub mod keymap;
pub mod lenient;
pub mod lines;
pub mod motion;
pub mod object;
pub mod oracle;
pub mod pairing;
pub mod pending;
pub mod places;
pub mod promises;
pub mod puts;
pub mod reaching;
pub mod recase;
pub mod record;
pub mod repeat;
pub mod scan;
pub mod scheme;
pub mod screen;
pub mod search;
pub mod seeking;
pub mod session;
pub mod shifting;
pub mod snapshot;
pub mod spans;
pub mod split;
pub mod state;
pub mod strings;
pub mod tame;
pub mod text;
pub mod undo;
pub mod unicode;
pub mod words;
pub mod written;

pub use buffer::Buffer;
pub use command::{
    AwaitChar, Command, Find, InsertAt, Mode, Motion, ObjectScope, Operator, Scroll, Target,
    TextObject, VisualKind,
};
pub use document::Document;
pub use edit::{Change, Edit, Point};
pub use editor::{Editor, Register};
pub use effect::Effect;
pub use grapheme::{Bound, clamp, grapheme_col};
pub use history::{History, LinearHistory, NoHistory, Step};
pub use host::{Indent, Viewport};
pub use key::{Key, KeyCode, Mods, ParseError, key, keys, render};
pub use keymap::{Binding, Keymap, Layer, Walk, is_count_digit};
pub use motion::{Span, resolve as resolve_motion, row_span};
pub use object::{delimiters, object_span};
pub use pending::{Pending, Resolution};
pub use ropey;
