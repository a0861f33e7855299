//! One frame of a session: the text, the log, the status line and the cursor, as a
//! terminal is to show them.

use vstd::prelude::*;
use vstd::utf8::*;

use crate::command::{Mode, VisualKind};
use crate::edit;
use crate::editor::Editor;
use crate::key;
use crate::key::render;
use crate::screen;
use crate::screen::Row;
use crate::session::{Colour, LogLine, Session, SessionState};
use crate::session;
use crate::strings;
use crate::strings::to_decimal;
use crate::text;

verus! {

/// A piece of the status line.
#[derive(Debug)]
pub struct Piece {
    pub text: String,
    pub fg: Option<Colour>,
    pub bg: Option<Colour>,
    pub bold: bool,
}

/// A piece of the status line, as a value.
#[verifier::ext_equal]
pub struct PieceState {
    pub text: Seq<char>,
    pub fg: Option<Colour>,
    pub bg: Option<Colour>,
    pub bold: bool,
}

impl View for Piece {
    type V = PieceState;

    open spec fn view(&self) -> PieceState {
        PieceState { text: self.text@, fg: self.fg, bg: self.bg, bold: self.bold }
    }
}

/// The pieces that `v` holds.
pub open spec fn piece_views(v: Seq<Piece>) -> Seq<PieceState> {
    Seq::new(v.len(), |i: int| v[i]@)
}

/// A piece in the terminal's own colours.
pub open spec fn plain(text: Seq<char>) -> PieceState {
    PieceState { text, fg: None, bg: None, bold: false }
}

/// A piece in a colour.
pub open spec fn tinted(text: Seq<char>, colour: Colour, bold: bool) -> PieceState {
    PieceState { text, fg: Some(colour), bg: None, bold }
}

/// How the status line names a mode, and in which colour.
pub open spec fn mode_label(mode: Mode) -> (Seq<char>, Colour) {
    match mode {
        Mode::Normal => (" NORMAL "@, Colour::Blue),
        Mode::Insert => (" INSERT "@, Colour::Green),
        Mode::Replace => (" REPLACE "@, Colour::Red),
        Mode::Visual(VisualKind::Char) => (" VISUAL "@, Colour::Magenta),
        Mode::Visual(VisualKind::Line) => (" V-LINE "@, Colour::Magenta),
    }
}

/// The pieces every status line has: the mode, and where the cursor is.
pub open spec fn place_pieces(s: SessionState) -> Seq<PieceState> {
    let (label, colour) = mode_label(s.editor.mode);
    let point = edit::point_at(s.editor.text, s.editor.cursor);
    seq![
        PieceState { text: label, fg: Some(Colour::Black), bg: Some(colour), bold: true },
        plain(
            " "@ + strings::decimal(point.row + 1) + ":"@ + strings::decimal(point.col as int)
                + " b"@ + strings::decimal(s.editor.cursor) + " "@,
        ),
    ]
}

/// `pieces`, and after them the keys pending, where there are any.
pub open spec fn with_pending(pieces: Seq<PieceState>, s: SessionState) -> Seq<PieceState> {
    if s.editor.pending.keys.len() == 0 {
        pieces
    } else {
        pieces.push(
            tinted(
                "cmd:"@ + key::notations(s.editor.pending.keys) + " "@,
                Colour::Yellow,
                false,
            ),
        )
    }
}

/// `pieces`, and after them the register being recorded to, where one is.
pub open spec fn with_recording(pieces: Seq<PieceState>, s: SessionState) -> Seq<PieceState> {
    match s.editor.recording {
        Some((register, _)) => pieces.push(
            tinted("rec:@"@.push(register) + " "@, Colour::Red, true),
        ),
        None => pieces,
    }
}

/// `pieces`, and after them the unnamed register, where it holds anything.
pub open spec fn with_register(pieces: Seq<PieceState>, s: SessionState) -> Seq<PieceState> {
    let register = s.editor.register;
    if register.text.len() == 0 {
        pieces
    } else {
        let kind = if register.linewise {
            "reg[line]:"@
        } else {
            "reg[char]:"@
        };
        pieces.push(
            tinted(
                kind + screen::shortened(decode_utf8(register.text), 16) + " "@,
                Colour::DarkGray,
                false,
            ),
        )
    }
}

/// `pieces`, and after them the message, where there is one.
pub open spec fn with_message(pieces: Seq<PieceState>, s: SessionState) -> Seq<PieceState> {
    if s.message.len() == 0 {
        pieces
    } else {
        pieces.push(tinted(s.message, Colour::Cyan, false))
    }
}

/// The status line: the prompt while there is one, else what there is to say of the
/// session.
pub open spec fn status_pieces(s: SessionState) -> Seq<PieceState> {
    match s.prompt {
        Some(input) => seq![plain(":"@ + input)],
        None => with_message(with_register(with_recording(with_pending(place_pieces(s), s), s), s), s),
    }
}

/// Where the terminal's cursor goes.
#[derive(Debug, Clone, Copy, PartialEq, Eq, Structural)]
pub enum Caret {
    /// On the status line.
    Prompt { col: u16 },
    /// In the text.
    Text { row: u16, col: u16 },
    /// Nowhere: the cursor is out of view.
    Hidden,
}

/// `n` as a number of terminal cells.
pub open spec fn cell(n: int) -> u16 {
    if n <= u16::MAX {
        n as u16
    } else {
        u16::MAX
    }
}

/// Where the terminal's cursor goes, beside a gutter `gutter` columns wide.
pub open spec fn caret_of(s: SessionState, gutter: int) -> Caret {
    match s.prompt {
        Some(input) => Caret::Prompt { col: cell(input.len() as int + 1) },
        None => if s.top <= s.row() && s.row() < s.top + s.height {
            Caret::Text {
                row: cell(s.row() - s.top),
                col: cell(gutter + 1 + screen::display_column(s.editor)),
            }
        } else {
            Caret::Hidden
        },
    }
}

/// The title of the text: the file's path, marked while it differs from the file.
pub open spec fn title_of(s: SessionState) -> Seq<char> {
    let path = " "@ + s.path;
    if s.modified {
        path + " [+] "@
    } else {
        path + " "@
    }
}

proof fn lemma_pieces_push(v: Seq<Piece>, x: Piece)
    ensures
        piece_views(v.push(x)) == piece_views(v).push(x@),
{
    assert(piece_views(v.push(x)) =~= piece_views(v).push(x@));
}

fn is_empty(s: &str) -> (r: bool)
    ensures
        r == (s@.len() == 0),
{
    let n: usize = strings::byte_len(s);
    proof {
        encode_utf8_decode_utf8(s@);
        if n == 0 {
            assert(encode_utf8(s@) =~= Seq::<u8>::empty());
            encode_utf8_decode_utf8(Seq::<char>::empty());
            assert(encode_utf8(Seq::<char>::empty()) =~= Seq::<u8>::empty());
        }
        if s@.len() == 0 {
            assert(s@ =~= Seq::<char>::empty());
        }
    }
    n == 0
}

fn name_mode(mode: Mode) -> (r: (&'static str, Colour))
    ensures
        (r.0@, r.1) == mode_label(mode),
{
    match mode {
        Mode::Normal => (" NORMAL ", Colour::Blue),
        Mode::Insert => (" INSERT ", Colour::Green),
        Mode::Replace => (" REPLACE ", Colour::Red),
        Mode::Visual(VisualKind::Char) => (" VISUAL ", Colour::Magenta),
        Mode::Visual(VisualKind::Line) => (" V-LINE ", Colour::Magenta),
    }
}

impl Session {
    /// The width of the gutter: the digits of the last row's number.
    pub fn gutter(&self) -> (r: usize)
        requires
            self.wf(),
        ensures
            r == strings::decimal(text::rows(self@.editor.text)).len(),
    {
        screen::decimals(self.editor().buffer().len_rows())
    }

    /// The title of the text.
    pub fn title(&self) -> (r: String)
        ensures
            r@ == title_of(self@),
    {
        let mut out: String = " ".to_owned();
        out.push_str(self.path());
        out.push_str(
            if self.is_modified() {
                " [+] "
            } else {
                " "
            },
        );
        out
    }

    /// The rows in view, beside a gutter `gutter` columns wide.
    pub fn rows(&self, gutter: usize) -> (r: Vec<Row>)
        requires
            self.wf(),
        ensures
            screen::row_views(r@) == screen::rows_shown(
                self@.editor,
                self@.top,
                screen::smaller(self@.top + self@.height, text::rows(self@.editor.text)),
                gutter as int,
            ),
    {
        screen::buffer_lines(self.editor(), self.top(), self.height(), gutter)
    }

    /// How many columns the log takes. Long lines do not scroll sideways, so it gets
    /// out of the way on `F2`.
    pub fn log_width(&self) -> (r: u16)
        ensures
            r == if self@.show_log {
                session::LOG_WIDTH
            } else {
                0
            },
    {
        if self.shows_log() {
            session::LOG_WIDTH
        } else {
            0
        }
    }

    /// The last `height` lines of the log, oldest first.
    pub fn recent_log(&self, height: usize) -> (r: &[LogLine])
        ensures
            session::log_views(r@) == (if self@.log.len() <= height {
                self@.log
            } else {
                self@.log.skip(self@.log.len() - height)
            }),
    {
        let lines: &[LogLine] = self.log();
        let start: usize = lines.len().saturating_sub(height);
        let r: &[LogLine] = vstd::slice::slice_subrange(lines, start, lines.len());
        assert(session::log_views(r@) =~= self@.log.skip(start as int));
        assert(start == 0 ==> self@.log.skip(0) =~= self@.log);
        r
    }

    fn push_place(&self, pieces: &mut Vec<Piece>)
        requires
            self.wf(),
            old(pieces).len() == 0,
        ensures
            piece_views(final(pieces)@) == place_pieces(self@),
    {
        let editor: &Editor = self.editor();
        let (label, colour) = name_mode(editor.mode());
        proof {
            text::lemma_row_of(editor@.text, editor@.cursor);
        }
        let rows: usize = editor.buffer().len_rows();
        let point = editor.cursor_point();
        let mut place: String = " ".to_owned();
        place.push_str(to_decimal(point.row + 1).as_str());
        place.push_str(":");
        place.push_str(to_decimal(point.col).as_str());
        place.push_str(" b");
        place.push_str(to_decimal(editor.cursor()).as_str());
        place.push_str(" ");
        pieces.push(
            Piece {
                text: label.to_owned(),
                fg: Some(Colour::Black),
                bg: Some(colour),
                bold: true,
            },
        );
        pieces.push(Piece { text: place, fg: None, bg: None, bold: false });
        assert(piece_views(pieces@) =~= place_pieces(self@));
    }

    fn push_pending(&self, pieces: &mut Vec<Piece>)
        ensures
            piece_views(final(pieces)@) == with_pending(piece_views(old(pieces)@), self@),
    {
        let pending: &[key::Key] = self.editor().pending_keys();
        if pending.len() > 0 {
            let mut out: String = "cmd:".to_owned();
            out.push_str(render(pending).as_str());
            out.push_str(" ");
            let piece: Piece = Piece { text: out, fg: Some(Colour::Yellow), bg: None, bold: false };
            proof {
                lemma_pieces_push(pieces@, piece);
            }
            pieces.push(piece);
        }
    }

    fn push_recording(&self, pieces: &mut Vec<Piece>)
        ensures
            piece_views(final(pieces)@) == with_recording(piece_views(old(pieces)@), self@),
    {
        if let Some(register) = self.editor().recording() {
            let mut out: String = "rec:@".to_owned();
            out.push(register);
            out.push_str(" ");
            let piece: Piece = Piece { text: out, fg: Some(Colour::Red), bg: None, bold: true };
            proof {
                lemma_pieces_push(pieces@, piece);
            }
            pieces.push(piece);
        }
    }

    fn push_register(&self, pieces: &mut Vec<Piece>)
        ensures
            piece_views(final(pieces)@) == with_register(piece_views(old(pieces)@), self@),
    {
        let register = self.editor().register();
        if strings::byte_len(register.text.as_str()) > 0 {
            proof {
                encode_utf8_decode_utf8(register.text@);
            }
            let mut out: String = (if register.linewise {
                "reg[line]:"
            } else {
                "reg[char]:"
            }).to_owned();
            out.push_str(screen::ellipsis(register.text.as_str(), 16).as_str());
            out.push_str(" ");
            let piece: Piece = Piece {
                text: out,
                fg: Some(Colour::DarkGray),
                bg: None,
                bold: false,
            };
            proof {
                lemma_pieces_push(pieces@, piece);
            }
            pieces.push(piece);
        }
    }

    fn push_message(&self, pieces: &mut Vec<Piece>)
        ensures
            piece_views(final(pieces)@) == with_message(piece_views(old(pieces)@), self@),
    {
        if !is_empty(self.message()) {
            let piece: Piece = Piece {
                text: self.message().to_owned(),
                fg: Some(Colour::Cyan),
                bg: None,
                bold: false,
            };
            proof {
                lemma_pieces_push(pieces@, piece);
            }
            pieces.push(piece);
        }
    }

    /// The status line.
    pub fn status_line(&self) -> (r: Vec<Piece>)
        requires
            self.wf(),
        ensures
            piece_views(r@) == status_pieces(self@),
    {
        let mut pieces: Vec<Piece> = Vec::new();
        if let Some(input) = self.prompt() {
            let typed: String = strings::from_chars(input);
            let mut out: String = ":".to_owned();
            out.push_str(typed.as_str());
            pieces.push(Piece { text: out, fg: None, bg: None, bold: false });
            assert(piece_views(pieces@) =~= status_pieces(self@));
            return pieces;
        }
        self.push_place(&mut pieces);
        self.push_pending(&mut pieces);
        self.push_recording(&mut pieces);
        self.push_register(&mut pieces);
        self.push_message(&mut pieces);
        pieces
    }

    /// Where the terminal's cursor goes, beside a gutter `gutter` columns wide.
    pub fn caret(&self, gutter: usize) -> (r: Caret)
        requires
            self.wf(),
        ensures
            r == caret_of(self@, gutter as int),
    {
        if let Some(input) = self.prompt() {
            return Caret::Prompt { col: screen::cells(input.len().saturating_add(1)) };
        }
        let editor: &Editor = self.editor();
        proof {
            text::lemma_row_of(editor@.text, editor@.cursor);
        }
        let rows: usize = editor.buffer().len_rows();
        let row: usize = editor.cursor_point().row;
        assert(row == self@.row());
        if self.top() <= row && row - self.top() < self.height() {
            let col: usize = screen::cursor_display_col(editor);
            Caret::Text {
                row: screen::cells(row - self.top()),
                col: screen::cells(gutter.saturating_add(1).saturating_add(col)),
            }
        } else {
            Caret::Hidden
        }
    }
}

} // verus!
