//! Normalised key input, independent of any terminal or windowing system.
//!
//! Hosts translate their own events into [`Key`]; this crate never sees a platform
//! type.
//!
//! # Notation
//!
//! [`keys`] parses vi's own notation, which makes keystroke scripts writable as
//! plain strings: `2dw<Esc><C-r>` is five keys.

use core::ops::BitOr;
use vstd::prelude::*;

use crate::strings;

verus! {

/// A physical key, with `Char` covering anything that produces text.
#[derive(Debug, Clone, Copy, PartialEq, Eq, PartialOrd, Ord, Hash, Structural)]
pub enum KeyCode {
    Char(char),
    Esc,
    Enter,
    Tab,
    Backspace,
    Delete,
    Insert,
    Left,
    Right,
    Up,
    Down,
    Home,
    End,
    PageUp,
    PageDown,
    F(u8),
}

/// Modifier flags: every combination of control, alt and shift.
#[allow(non_camel_case_types)]
#[derive(Debug, Clone, Copy, PartialEq, Eq, PartialOrd, Ord, Hash, Structural)]
pub enum Mods {
    NONE,
    CTRL,
    ALT,
    CTRL_ALT,
    SHIFT,
    CTRL_SHIFT,
    ALT_SHIFT,
    CTRL_ALT_SHIFT,
}

impl Default for Mods {
    fn default() -> (r: Self)
        ensures
            r == Mods::NONE,
    {
        Mods::NONE
    }
}

/// The combination of the given flags.
pub open spec fn flags(ctrl: bool, alt: bool, shift: bool) -> Mods {
    match (ctrl, alt, shift) {
        (false, false, false) => Mods::NONE,
        (true, false, false) => Mods::CTRL,
        (false, true, false) => Mods::ALT,
        (true, true, false) => Mods::CTRL_ALT,
        (false, false, true) => Mods::SHIFT,
        (true, false, true) => Mods::CTRL_SHIFT,
        (false, true, true) => Mods::ALT_SHIFT,
        (true, true, true) => Mods::CTRL_ALT_SHIFT,
    }
}

impl Mods {
    /// Whether control is among the flags.
    pub open spec fn ctrl(self) -> bool {
        self == Mods::CTRL || self == Mods::CTRL_ALT || self == Mods::CTRL_SHIFT || self
            == Mods::CTRL_ALT_SHIFT
    }

    /// Whether alt is among the flags.
    pub open spec fn alt(self) -> bool {
        self == Mods::ALT || self == Mods::CTRL_ALT || self == Mods::ALT_SHIFT || self
            == Mods::CTRL_ALT_SHIFT
    }

    /// Whether shift is among the flags.
    pub open spec fn shift(self) -> bool {
        self == Mods::SHIFT || self == Mods::CTRL_SHIFT || self == Mods::ALT_SHIFT || self
            == Mods::CTRL_ALT_SHIFT
    }

    /// The flags of either.
    pub open spec fn union(self, other: Mods) -> Mods {
        flags(
            self.ctrl() || other.ctrl(),
            self.alt() || other.alt(),
            self.shift() || other.shift(),
        )
    }

    fn has_ctrl(self) -> (r: bool)
        ensures
            r == self.ctrl(),
    {
        matches!(self, Mods::CTRL | Mods::CTRL_ALT | Mods::CTRL_SHIFT | Mods::CTRL_ALT_SHIFT)
    }

    fn has_alt(self) -> (r: bool)
        ensures
            r == self.alt(),
    {
        matches!(self, Mods::ALT | Mods::CTRL_ALT | Mods::ALT_SHIFT | Mods::CTRL_ALT_SHIFT)
    }

    fn has_shift(self) -> (r: bool)
        ensures
            r == self.shift(),
    {
        matches!(self, Mods::SHIFT | Mods::CTRL_SHIFT | Mods::ALT_SHIFT | Mods::CTRL_ALT_SHIFT)
    }

    pub(crate) fn of(ctrl: bool, alt: bool, shift: bool) -> (r: Mods)
        ensures
            r == flags(ctrl, alt, shift),
    {
        match (ctrl, alt, shift) {
            (false, false, false) => Mods::NONE,
            (true, false, false) => Mods::CTRL,
            (false, true, false) => Mods::ALT,
            (true, true, false) => Mods::CTRL_ALT,
            (false, false, true) => Mods::SHIFT,
            (true, false, true) => Mods::CTRL_SHIFT,
            (false, true, true) => Mods::ALT_SHIFT,
            (true, true, true) => Mods::CTRL_ALT_SHIFT,
        }
    }

    /// Whether every flag of `other` is set.
    #[must_use]
    pub fn contains(self, other: Self) -> (r: bool)
        ensures
            r == ((other.ctrl() ==> self.ctrl()) && (other.alt() ==> self.alt()) && (
            other.shift() ==> self.shift())),
    {
        (!other.has_ctrl() || self.has_ctrl()) && (!other.has_alt() || self.has_alt()) && (
        !other.has_shift() || self.has_shift())
    }

    /// Whether no flag is set.
    #[must_use]
    pub fn is_empty(self) -> (r: bool)
        ensures
            r == (self == Mods::NONE),
    {
        matches!(self, Mods::NONE)
    }

    /// The flags that are not in `other`.
    #[must_use]
    fn without(self, other: Self) -> (r: Self)
        ensures
            r == flags(
                self.ctrl() && !other.ctrl(),
                self.alt() && !other.alt(),
                self.shift() && !other.shift(),
            ),
    {
        Mods::of(
            self.has_ctrl() && !other.has_ctrl(),
            self.has_alt() && !other.has_alt(),
            self.has_shift() && !other.has_shift(),
        )
    }

    /// The flags, as they are written out in diagnostics.
    #[must_use]
    pub fn to_string(&self) -> (r: String)
        ensures
            r@ == match *self {
                Mods::NONE => "NONE"@,
                Mods::CTRL => "CTRL"@,
                Mods::ALT => "ALT"@,
                Mods::CTRL_ALT => "CTRL|ALT"@,
                Mods::SHIFT => "SHIFT"@,
                Mods::CTRL_SHIFT => "CTRL|SHIFT"@,
                Mods::ALT_SHIFT => "ALT|SHIFT"@,
                Mods::CTRL_ALT_SHIFT => "CTRL|ALT|SHIFT"@,
            },
    {
        match *self {
            Mods::NONE => "NONE".to_owned(),
            Mods::CTRL => "CTRL".to_owned(),
            Mods::ALT => "ALT".to_owned(),
            Mods::CTRL_ALT => "CTRL|ALT".to_owned(),
            Mods::SHIFT => "SHIFT".to_owned(),
            Mods::CTRL_SHIFT => "CTRL|SHIFT".to_owned(),
            Mods::ALT_SHIFT => "ALT|SHIFT".to_owned(),
            Mods::CTRL_ALT_SHIFT => "CTRL|ALT|SHIFT".to_owned(),
        }
    }
}

impl BitOr for Mods {
    type Output = Self;

    fn bitor(self, rhs: Self) -> (r: Self) {
        Mods::of(
            self.has_ctrl() || rhs.has_ctrl(),
            self.has_alt() || rhs.has_alt(),
            self.has_shift() || rhs.has_shift(),
        )
    }
}

impl vstd::std_specs::ops::BitOrSpecImpl for Mods {
    open spec fn obeys_bitor_spec() -> bool {
        true
    }

    open spec fn bitor_req(self, rhs: Self) -> bool {
        true
    }

    open spec fn bitor_spec(self, rhs: Self) -> Self {
        self.union(rhs)
    }
}

/// A key press.
///
/// # Normalisation
///
/// `SHIFT` is never combined with [`KeyCode::Char`]: the character case already
/// carries it, so `D` is `Char('D')` with no modifier, never `Char('d')` plus
/// `SHIFT`. [`Key::new`] sees to this by upcasing and dropping the flag.
///
/// This matters because terminals disagree: some report `SHIFT` alongside
/// uppercase characters, browsers generally do not. Without normalisation a keymap
/// entry for `D` matches on one platform and not the other.
#[derive(Debug, Clone, Copy, PartialEq, Eq, PartialOrd, Ord, Hash, Structural)]
pub struct Key {
    pub code: KeyCode,
    pub mods: Mods,
}

/// `c`, or its capital where it is a lowercase ASCII letter.
pub open spec fn ascii_upper(c: char) -> char {
    if 'a' <= c && c <= 'z' {
        (c as u8 - 32) as char
    } else {
        c
    }
}

/// The key for `code` with `mods`, normalised.
pub open spec fn normal(code: KeyCode, mods: Mods) -> Key {
    match code {
        KeyCode::Char(ch) if mods.shift() => Key {
            code: KeyCode::Char(ascii_upper(ch)),
            mods: flags(mods.ctrl(), mods.alt(), false),
        },
        _ => Key { code, mods },
    }
}

/// The key that types `ch`.
pub open spec fn plain(ch: char) -> Key {
    Key { code: KeyCode::Char(ch), mods: Mods::NONE }
}

impl Key {
    /// Whether the key is one that [`Key::new`] gives.
    pub open spec fn is_normal(self) -> bool {
        !(self.code is Char && self.mods.shift())
    }

    /// The character the key would insert as text.
    pub open spec fn text(self) -> Option<char> {
        match self.code {
            KeyCode::Char(ch) if self.mods == Mods::NONE => Some(ch),
            _ => None,
        }
    }

    /// The digit the key stands for.
    pub open spec fn digit(self) -> Option<u32> {
        match self.text() {
            Some(ch) if strings::is_digit(ch) => Some(strings::digit_value(ch) as u32),
            _ => None,
        }
    }

    /// The key for `code` with `mods`, normalised.
    #[must_use]
    pub fn new(code: KeyCode, mods: Mods) -> (r: Self)
        ensures
            r == normal(code, mods),
            r.is_normal(),
    {
        match code {
            KeyCode::Char(ch) => {
                if mods.contains(Mods::SHIFT) {
                    let upper: char = if 'a' <= ch && ch <= 'z' {
                        (ch as u8 - 32) as char
                    } else {
                        ch
                    };
                    Self { code: KeyCode::Char(upper), mods: mods.without(Mods::SHIFT) }
                } else {
                    Self { code, mods }
                }
            },
            _ => Self { code, mods },
        }
    }

    /// The key that types `ch`.
    #[must_use]
    pub fn char(ch: char) -> (r: Self)
        ensures
            r == plain(ch),
    {
        Self::new(KeyCode::Char(ch), Mods::NONE)
    }

    /// The key for `ch` with control.
    #[must_use]
    pub fn ctrl(ch: char) -> (r: Self)
        ensures
            r == (Key { code: KeyCode::Char(ch), mods: Mods::CTRL }),
    {
        Self::new(KeyCode::Char(ch), Mods::CTRL)
    }

    /// The key for `code` without modifiers.
    #[must_use]
    pub fn code(code: KeyCode) -> (r: Self)
        ensures
            r == (Key { code, mods: Mods::NONE }),
    {
        Self::new(code, Mods::NONE)
    }

    /// The character this key would insert as text, if any.
    ///
    /// Returns `None` for anything modified, so `<C-w>` in insert mode reaches a
    /// binding rather than inserting a `w`.
    #[must_use]
    pub fn as_text(self) -> (r: Option<char>)
        ensures
            r == self.text(),
    {
        match self.code {
            KeyCode::Char(ch) => if self.mods.is_empty() {
                Some(ch)
            } else {
                None
            },
            _ => None,
        }
    }

    /// The unmodified ASCII digit this key represents, if any.
    #[must_use]
    pub fn as_digit(self) -> (r: Option<u32>)
        ensures
            r == self.digit(),
            r is Some ==> r->0 <= 9,
    {
        match self.as_text() {
            Some(ch) => if '0' <= ch && ch <= '9' {
                Some((ch as u8 - 48) as u32)
            } else {
                None
            },
            None => None,
        }
    }

    /// The key in vi notation.
    #[must_use]
    pub fn to_string(&self) -> (r: String)
        ensures
            r@ == notation(*self),
    {
        let mut out = String::new();
        if let KeyCode::Char(ch) = self.code {
            if ch != ' ' && ch != '<' && self.mods.is_empty() {
                out.push(ch);
                assert(out@ =~= seq![ch]);
                return out;
            }
        }
        out.push('<');
        if self.mods.has_ctrl() {
            out.push('C');
            out.push('-');
        }
        if self.mods.has_alt() {
            out.push('M');
            out.push('-');
        }
        if self.mods.has_shift() {
            out.push('S');
            out.push('-');
        }
        proof {
            assert(out@ =~= seq!['<'] + mods_notation(self.mods));
        }
        let name: String = self.code.name();
        out.push_str(name.as_str());
        out.push('>');
        proof {
            assert(out@ =~= notation(*self));
        }
        out
    }
}

/// The name of a key between `<` and `>`.
pub open spec fn code_name(code: KeyCode) -> Seq<char> {
    match code {
        KeyCode::Char(ch) => if ch == ' ' {
            "Space"@
        } else if ch == '<' {
            "lt"@
        } else {
            seq![ch]
        },
        KeyCode::Esc => "Esc"@,
        KeyCode::Enter => "CR"@,
        KeyCode::Tab => "Tab"@,
        KeyCode::Backspace => "BS"@,
        KeyCode::Delete => "Del"@,
        KeyCode::Insert => "Insert"@,
        KeyCode::Left => "Left"@,
        KeyCode::Right => "Right"@,
        KeyCode::Up => "Up"@,
        KeyCode::Down => "Down"@,
        KeyCode::Home => "Home"@,
        KeyCode::End => "End"@,
        KeyCode::PageUp => "PageUp"@,
        KeyCode::PageDown => "PageDown"@,
        KeyCode::F(n) => seq!['F'] + strings::decimal(n as int),
    }
}

/// The modifiers ahead of a key's name.
pub open spec fn mods_notation(mods: Mods) -> Seq<char> {
    (if mods.ctrl() {
        seq!['C', '-']
    } else {
        seq![]
    }) + (if mods.alt() {
        seq!['M', '-']
    } else {
        seq![]
    }) + (if mods.shift() {
        seq!['S', '-']
    } else {
        seq![]
    })
}

/// Whether the key is written as the character it types.
pub open spec fn is_bare(k: Key) -> bool {
    k.code is Char && k.code->Char_0 != ' ' && k.code->Char_0 != '<' && k.mods == Mods::NONE
}

/// The key in vi notation: the character itself, or a name in angle brackets.
pub open spec fn notation(k: Key) -> Seq<char> {
    if is_bare(k) {
        seq![k.code->Char_0]
    } else {
        seq!['<'] + mods_notation(k.mods) + code_name(k.code) + seq!['>']
    }
}

/// A key sequence in vi notation.
pub open spec fn notations(ks: Seq<Key>) -> Seq<char>
    decreases ks.len(),
{
    if ks.len() == 0 {
        Seq::empty()
    } else {
        notations(ks.drop_last()) + notation(ks.last())
    }
}

impl KeyCode {
    /// The name of the key between `<` and `>`.
    fn name(self) -> (r: String)
        ensures
            r@ == code_name(self),
    {
        match self {
            KeyCode::Char(ch) => {
                if ch == ' ' {
                    "Space".to_owned()
                } else if ch == '<' {
                    "lt".to_owned()
                } else {
                    let mut out = String::new();
                    out.push(ch);
                    assert(out@ =~= seq![ch]);
                    out
                }
            },
            KeyCode::Esc => "Esc".to_owned(),
            KeyCode::Enter => "CR".to_owned(),
            KeyCode::Tab => "Tab".to_owned(),
            KeyCode::Backspace => "BS".to_owned(),
            KeyCode::Delete => "Del".to_owned(),
            KeyCode::Insert => "Insert".to_owned(),
            KeyCode::Left => "Left".to_owned(),
            KeyCode::Right => "Right".to_owned(),
            KeyCode::Up => "Up".to_owned(),
            KeyCode::Down => "Down".to_owned(),
            KeyCode::Home => "Home".to_owned(),
            KeyCode::End => "End".to_owned(),
            KeyCode::PageUp => "PageUp".to_owned(),
            KeyCode::PageDown => "PageDown".to_owned(),
            KeyCode::F(n) => {
                let mut out = String::new();
                out.push('F');
                out.push_str(strings::to_decimal(n as usize).as_str());
                assert(out@ =~= code_name(self));
                out
            },
        }
    }
}

/// Why a key sequence could not be parsed.
#[derive(Debug, PartialEq, Eq)]
pub enum ParseError {
    /// A `<` was opened but never closed.
    UnterminatedBracket,
    /// The text between `<` and `>` was not a recognised key name.
    UnknownKey(String),
}

/// What a [`ParseError`] says.
#[verifier::ext_equal]
pub enum Fault {
    Unterminated,
    Unknown(Seq<char>),
}

impl Fault {
    /// The fault as it is shown to a user.
    pub open spec fn message(self) -> Seq<char> {
        match self {
            Fault::Unterminated => "unterminated `<` in key sequence"@,
            Fault::Unknown(name) => "unknown key name `<"@ + name + ">`"@,
        }
    }
}

impl View for ParseError {
    type V = Fault;

    open spec fn view(&self) -> Fault {
        match self {
            ParseError::UnterminatedBracket => Fault::Unterminated,
            ParseError::UnknownKey(name) => Fault::Unknown(name@),
        }
    }
}

impl Clone for ParseError {
    fn clone(&self) -> (r: Self)
        ensures
            r == *self,
    {
        match self {
            ParseError::UnterminatedBracket => ParseError::UnterminatedBracket,
            ParseError::UnknownKey(name) => ParseError::UnknownKey(name.clone()),
        }
    }
}

impl ParseError {
    /// The error as it is shown to a user.
    #[must_use]
    pub fn to_string(&self) -> (r: String)
        ensures
            r@ == self@.message(),
    {
        match self {
            ParseError::UnterminatedBracket => "unterminated `<` in key sequence".to_owned(),
            ParseError::UnknownKey(name) => {
                let mut out: String = "unknown key name `<".to_owned();
                out.push_str(name.as_str());
                out.push_str(">`");
                out
            },
        }
    }
}

// ---------------------------------------------------------------------------
// parsing
// ---------------------------------------------------------------------------

/// The modifier that `s` starts with, where more than the modifier follows.
pub open spec fn leading_mod(s: Seq<char>) -> Option<Mods> {
    if s.len() > 2 && s[1] == '-' {
        if s[0] == 'C' {
            Some(Mods::CTRL)
        } else if s[0] == 'M' || s[0] == 'A' {
            Some(Mods::ALT)
        } else if s[0] == 'S' {
            Some(Mods::SHIFT)
        } else {
            None
        }
    } else {
        None
    }
}

/// `s` split into the modifiers it starts with, added to `mods`, and the rest. A
/// trailing `-` is the key itself, as in `<C-->`.
pub open spec fn strip_mods(mods: Mods, s: Seq<char>) -> (Mods, Seq<char>)
    decreases s.len(),
{
    match leading_mod(s) {
        Some(m) => strip_mods(mods.union(m), s.skip(2)),
        None => (mods, s),
    }
}

/// The key that `s` names.
pub open spec fn code_of(s: Seq<char>) -> Option<KeyCode> {
    if s == "Esc"@ {
        Some(KeyCode::Esc)
    } else if s == "CR"@ || s == "Enter"@ || s == "Return"@ {
        Some(KeyCode::Enter)
    } else if s == "Tab"@ {
        Some(KeyCode::Tab)
    } else if s == "BS"@ {
        Some(KeyCode::Backspace)
    } else if s == "Del"@ {
        Some(KeyCode::Delete)
    } else if s == "Insert"@ {
        Some(KeyCode::Insert)
    } else if s == "Space"@ {
        Some(KeyCode::Char(' '))
    } else if s == "lt"@ {
        Some(KeyCode::Char('<'))
    } else if s == "gt"@ {
        Some(KeyCode::Char('>'))
    } else if s == "bslash"@ {
        Some(KeyCode::Char('\\'))
    } else if s == "Left"@ {
        Some(KeyCode::Left)
    } else if s == "Right"@ {
        Some(KeyCode::Right)
    } else if s == "Up"@ {
        Some(KeyCode::Up)
    } else if s == "Down"@ {
        Some(KeyCode::Down)
    } else if s == "Home"@ {
        Some(KeyCode::Home)
    } else if s == "End"@ {
        Some(KeyCode::End)
    } else if s == "PageUp"@ {
        Some(KeyCode::PageUp)
    } else if s == "PageDown"@ {
        Some(KeyCode::PageDown)
    } else if s.len() == 1 {
        Some(KeyCode::Char(s[0]))
    } else if s.len() > 1 && s[0] == 'F' {
        match strings::parsed(s.skip(1), 255) {
            Some(n) => Some(KeyCode::F(n as u8)),
            None => None,
        }
    } else {
        None
    }
}

/// The key that `<name>` writes.
pub open spec fn bracketed(name: Seq<char>) -> Option<Key> {
    let (mods, rest) = strip_mods(Mods::NONE, name);
    match code_of(rest) {
        Some(code) => Some(normal(code, mods)),
        None => None,
    }
}

/// The first `>` in `s` at or after `i`, or its length.
pub open spec fn close_of(s: Seq<char>, i: int) -> int
    decreases s.len() - i,
{
    if i >= s.len() || s[i] == '>' {
        i
    } else {
        close_of(s, i + 1)
    }
}

/// The keys that the characters of `s` from `i` on write: a bare character is
/// itself, and `<` opens a name that runs to the next `>`.
pub open spec fn parsed_from(s: Seq<char>, i: int) -> Result<Seq<Key>, Fault>
    decreases s.len() - i,
    via parsed_from_decreases
{
    if i >= s.len() {
        Ok(Seq::empty())
    } else if s[i] != '<' {
        match parsed_from(s, i + 1) {
            Ok(ks) => Ok(seq![plain(s[i])] + ks),
            Err(e) => Err(e),
        }
    } else {
        let j = close_of(s, i + 1);
        if j >= s.len() {
            Err(Fault::Unterminated)
        } else {
            let name = s.subrange(i + 1, j);
            match bracketed(name) {
                None => Err(Fault::Unknown(name)),
                Some(k) => match parsed_from(s, j + 1) {
                    Ok(ks) => Ok(seq![k] + ks),
                    Err(e) => Err(e),
                },
            }
        }
    }
}

#[via_fn]
proof fn parsed_from_decreases(s: Seq<char>, i: int) {
    if i < s.len() && s[i] == '<' {
        lemma_close_of(s, i + 1);
    }
}

/// `close_of` finds the first `>`.
pub proof fn lemma_close_of(s: Seq<char>, i: int)
    requires
        i <= s.len(),
    ensures
        i <= close_of(s, i) <= s.len(),
        close_of(s, i) < s.len() ==> s[close_of(s, i)] == '>',
        forall|k: int| i <= k < close_of(s, i) ==> s[k] != '>',
    decreases s.len() - i,
{
    if i < s.len() && s[i] != '>' {
        lemma_close_of(s, i + 1);
    }
}

/// The keys that `s` writes.
pub open spec fn parsed_keys(s: Seq<char>) -> Result<Seq<Key>, Fault> {
    parsed_from(s, 0)
}

/// Parse a key sequence in vi notation.
///
/// Bare characters map to themselves; `<...>` forms name special keys and
/// modifiers (`<C-d>`, `<M-x>`, `<S-Tab>`, `<Esc>`, `<CR>`, `<Space>`, `<lt>`,
/// `<F5>`).
pub fn keys(spec: &str) -> (r: Result<Vec<Key>, ParseError>)
    ensures
        match r {
            Ok(ks) => parsed_keys(spec@) == Ok::<Seq<Key>, Fault>(ks@),
            Err(e) => parsed_keys(spec@) == Err::<Seq<Key>, Fault>(e@),
        },
{
    let chars: Vec<char> = strings::chars_of(spec);
    let ghost s = chars@;
    let mut out: Vec<Key> = Vec::new();
    let mut i: usize = 0;
    while i < chars.len()
        invariant
            s == chars@,
            s == spec@,
            i <= chars.len(),
            parsed_keys(s) == (match parsed_from(s, i as int) {
                Ok(ks) => Ok::<Seq<Key>, Fault>(out@ + ks),
                Err(e) => Err(e),
            }),
        decreases chars.len() - i,
    {
        let ghost before = out@;
        let c: char = chars[i];
        if c != '<' {
            out.push(Key::char(c));
            i += 1;
            proof {
                if let Ok(ks) = parsed_from(s, i as int) {
                    assert(before + (seq![plain(c)] + ks) =~= out@ + ks);
                }
            }
            continue ;
        }
        let start: usize = i + 1;
        let mut j: usize = start;
        while j < chars.len() && chars[j] != '>'
            invariant
                s == chars@,
                start <= j <= chars.len(),
                close_of(s, start as int) == close_of(s, j as int),
            decreases chars.len() - j,
        {
            j += 1;
        }
        if j >= chars.len() {
            return Err(ParseError::UnterminatedBracket);
        }
        let mut name: Vec<char> = Vec::new();
        let mut k: usize = start;
        while k < j
            invariant
                s == chars@,
                start <= k <= j < chars.len(),
                name@ == s.subrange(start as int, k as int),
            decreases j - k,
        {
            name.push(chars[k]);
            k += 1;
            proof {
                assert(s.subrange(start as int, k as int) =~= s.subrange(
                    start as int,
                    k - 1,
                ).push(s[k - 1]));
            }
        }
        match parse_bracketed(&name) {
            Ok(key) => {
                out.push(key);
                i = j + 1;
                proof {
                    if let Ok(ks) = parsed_from(s, i as int) {
                        assert(before + (seq![key] + ks) =~= out@ + ks);
                    }
                }
            },
            Err(e) => {
                return Err(e);
            },
        }
    }
    proof {
        assert(out@ + Seq::<Key>::empty() =~= out@);
    }
    Ok(out)
}

/// Parse a single key in vi notation.
pub fn key(spec: &str) -> (r: Result<Key, ParseError>)
    ensures
        match r {
            Ok(k) => parsed_keys(spec@) == Ok::<Seq<Key>, Fault>(seq![k]),
            Err(e) => match parsed_keys(spec@) {
                Ok(ks) => ks.len() != 1 && e@ == Fault::Unknown(spec@),
                Err(f) => e@ == f,
            },
        },
{
    match keys(spec) {
        Ok(parsed) => {
            if parsed.len() == 1 {
                assert(parsed@ =~= seq![parsed@[0]]);
                Ok(parsed[0])
            } else {
                Err(ParseError::UnknownKey(spec.to_owned()))
            }
        },
        Err(e) => Err(e),
    }
}

/// The key that `<name>` writes.
fn parse_bracketed(name: &Vec<char>) -> (r: Result<Key, ParseError>)
    ensures
        match r {
            Ok(k) => bracketed(name@) == Some(k),
            Err(e) => bracketed(name@) is None && e@ == Fault::Unknown(name@),
        },
{
    let mut mods: Mods = Mods::NONE;
    let mut at: usize = 0;
    proof {
        assert(name@.skip(0) =~= name@);
    }
    loop
        invariant
            at <= name.len(),
            strip_mods(Mods::NONE, name@) == strip_mods(mods, name@.skip(at as int)),
        ensures
            leading_mod(name@.skip(at as int)) is None,
        decreases name.len() - at,
    {
        if name.len() - at <= 2 || name[at + 1] != '-' {
            break ;
        }
        let flag: Mods = match name[at] {
            'C' => Mods::CTRL,
            'M' | 'A' => Mods::ALT,
            'S' => Mods::SHIFT,
            _ => {
                break ;
            },
        };
        mods = mods | flag;
        proof {
            assert(name@.skip(at as int).skip(2) =~= name@.skip(at + 2));
        }
        at += 2;
    }
    let mut rest: Vec<char> = Vec::new();
    let mut k: usize = at;
    while k < name.len()
        invariant
            at <= k <= name.len(),
            rest@ == name@.subrange(at as int, k as int),
        decreases name.len() - k,
    {
        rest.push(name[k]);
        k += 1;
        proof {
            assert(name@.subrange(at as int, k as int) =~= name@.subrange(at as int, k - 1).push(
                name@[k - 1],
            ));
        }
    }
    proof {
        assert(rest@ =~= name@.skip(at as int));
    }
    match parse_code(&rest) {
        Some(code) => Ok(Key::new(code, mods)),
        None => Err(ParseError::UnknownKey(strings::from_chars(name.as_slice()))),
    }
}

/// The key that `rest` names.
fn parse_code(rest: &Vec<char>) -> (r: Option<KeyCode>)
    ensures
        r == code_of(rest@),
{
    let s: &[char] = rest.as_slice();
    if strings::spell(s, "Esc") {
        Some(KeyCode::Esc)
    } else if strings::spell(s, "CR") || strings::spell(s, "Enter") || strings::spell(
        s,
        "Return",
    ) {
        Some(KeyCode::Enter)
    } else if strings::spell(s, "Tab") {
        Some(KeyCode::Tab)
    } else if strings::spell(s, "BS") {
        Some(KeyCode::Backspace)
    } else if strings::spell(s, "Del") {
        Some(KeyCode::Delete)
    } else if strings::spell(s, "Insert") {
        Some(KeyCode::Insert)
    } else if strings::spell(s, "Space") {
        Some(KeyCode::Char(' '))
    } else if strings::spell(s, "lt") {
        Some(KeyCode::Char('<'))
    } else if strings::spell(s, "gt") {
        Some(KeyCode::Char('>'))
    } else if strings::spell(s, "bslash") {
        Some(KeyCode::Char('\\'))
    } else if strings::spell(s, "Left") {
        Some(KeyCode::Left)
    } else if strings::spell(s, "Right") {
        Some(KeyCode::Right)
    } else if strings::spell(s, "Up") {
        Some(KeyCode::Up)
    } else if strings::spell(s, "Down") {
        Some(KeyCode::Down)
    } else if strings::spell(s, "Home") {
        Some(KeyCode::Home)
    } else if strings::spell(s, "End") {
        Some(KeyCode::End)
    } else if strings::spell(s, "PageUp") {
        Some(KeyCode::PageUp)
    } else if strings::spell(s, "PageDown") {
        Some(KeyCode::PageDown)
    } else if rest.len() == 1 {
        Some(KeyCode::Char(rest[0]))
    } else if rest.len() > 1 && rest[0] == 'F' {
        let mut digits: Vec<char> = Vec::new();
        let mut k: usize = 1;
        while k < rest.len()
            invariant
                1 <= k <= rest.len(),
                digits@ == rest@.subrange(1, k as int),
            decreases rest.len() - k,
        {
            digits.push(rest[k]);
            k += 1;
            proof {
                assert(rest@.subrange(1, k as int) =~= rest@.subrange(1, k - 1).push(
                    rest@[k - 1],
                ));
            }
        }
        proof {
            assert(digits@ =~= rest@.skip(1));
        }
        match strings::parse_number(digits.as_slice(), 255) {
            Some(n) => Some(KeyCode::F(n as u8)),
            None => None,
        }
    } else {
        None
    }
}

/// Render a key sequence back into vi notation.
#[must_use]
pub fn render(sequence: &[Key]) -> (r: String)
    ensures
        r@ == notations(sequence@),
{
    let mut out = String::new();
    let mut i: usize = 0;
    while i < sequence.len()
        invariant
            i <= sequence.len(),
            out@ == notations(sequence@.take(i as int)),
        decreases sequence.len() - i,
    {
        out.push_str(sequence[i].to_string().as_str());
        i += 1;
        proof {
            assert(sequence@.take(i as int).drop_last() =~= sequence@.take(i - 1));
        }
    }
    proof {
        assert(sequence@.take(sequence@.len() as int) =~= sequence@);
    }
    out
}

// ---------------------------------------------------------------------------
// rendering and parsing agree
// ---------------------------------------------------------------------------

/// Whether the notation can express the key. It can express every key that
/// [`Key::new`] gives but a modified `>`, whose bracket would close too early.
pub open spec fn expressible(k: Key) -> bool {
    k.is_normal() && !(k.code == KeyCode::Char('>') && k.mods != Mods::NONE)
}

/// A key's name reads back as the key, starts with no modifier, and holds no `>`.
proof fn lemma_code_name(code: KeyCode)
    requires
        code != KeyCode::Char('>'),
    ensures
        code_of(code_name(code)) == Some(code),
        code_name(code).len() > 0,
        leading_mod(code_name(code)) is None,
        forall|i: int| 0 <= i < code_name(code).len() ==> code_name(code)[i] != '>',
{
    reveal_strlit("Esc");
    reveal_strlit("CR");
    reveal_strlit("Enter");
    reveal_strlit("Return");
    reveal_strlit("Tab");
    reveal_strlit("BS");
    reveal_strlit("Del");
    reveal_strlit("Insert");
    reveal_strlit("Space");
    reveal_strlit("lt");
    reveal_strlit("gt");
    reveal_strlit("bslash");
    reveal_strlit("Left");
    reveal_strlit("Right");
    reveal_strlit("Up");
    reveal_strlit("Down");
    reveal_strlit("Home");
    reveal_strlit("End");
    reveal_strlit("PageUp");
    reveal_strlit("PageDown");
    assert("End"@[1] != "Esc"@[1]);
    assert("Esc"@[0] == 'E');
    assert("CR"@[0] == 'C');
    assert("Enter"@[0] == 'E');
    assert("Return"@[0] == 'R');
    assert("Tab"@[0] == 'T');
    assert("BS"@[0] == 'B');
    assert("Del"@[0] == 'D');
    assert("Insert"@[0] == 'I');
    assert("Space"@[0] == 'S');
    assert("lt"@[0] == 'l');
    assert("gt"@[0] == 'g');
    assert("bslash"@[0] == 'b');
    assert("Left"@[0] == 'L');
    assert("Right"@[0] == 'R');
    assert("Up"@[0] == 'U');
    assert("Down"@[0] == 'D');
    assert("Home"@[0] == 'H');
    assert("End"@[0] == 'E');
    assert("PageUp"@[0] == 'P');
    assert("PageDown"@[0] == 'P');
    match code {
        KeyCode::F(n) => {
            let s = code_name(code);
            strings::lemma_decimal_reads_back(n as int);
            strings::lemma_decimal_parses(n as int, 255);
            assert(s.skip(1) =~= strings::decimal(n as int));
            assert(s[0] == 'F');
            assert(strings::is_digit(s.skip(1)[0]));
            assert forall|i: int| 0 <= i < s.len() implies s[i] != '>' by {
                if i > 0 {
                    assert(strings::is_digit(s.skip(1)[i - 1]));
                }
            }
        },
        _ => {},
    }
}

proof fn lemma_strip_one(mods: Mods, c: char, rest: Seq<char>)
    requires
        rest.len() > 0,
        c == 'C' || c == 'M' || c == 'S',
    ensures
        strip_mods(mods, seq![c, '-'] + rest) == strip_mods(
            mods.union(leading_mod(seq![c, '-'] + rest)->0),
            rest,
        ),
        leading_mod(seq![c, '-'] + rest) == Some(
            if c == 'C' {
                Mods::CTRL
            } else if c == 'M' {
                Mods::ALT
            } else {
                Mods::SHIFT
            },
        ),
{
    assert((seq![c, '-'] + rest).skip(2) =~= rest);
}

/// What stands between the brackets of a key reads back as the key.
proof fn lemma_bracketed(k: Key)
    requires
        expressible(k),
        k.code != KeyCode::Char('>'),
    ensures
        bracketed(mods_notation(k.mods) + code_name(k.code)) == Some(k),
        forall|i: int|
            #![auto]
            0 <= i < (mods_notation(k.mods) + code_name(k.code)).len() ==> (mods_notation(k.mods)
                + code_name(k.code))[i] != '>',
{
    let name = code_name(k.code);
    lemma_code_name(k.code);
    let m = k.mods;
    let c: Seq<char> = if m.ctrl() {
        seq!['C', '-']
    } else {
        seq![]
    };
    let a: Seq<char> = if m.alt() {
        seq!['M', '-']
    } else {
        seq![]
    };
    let s: Seq<char> = if m.shift() {
        seq!['S', '-']
    } else {
        seq![]
    };
    let s3 = s + name;
    let s2 = a + s3;
    let s1 = c + s2;
    assert(mods_notation(m) + name =~= s1);
    let m1 = if m.ctrl() {
        Mods::NONE.union(Mods::CTRL)
    } else {
        Mods::NONE
    };
    let m2 = if m.alt() {
        m1.union(Mods::ALT)
    } else {
        m1
    };
    let m3 = if m.shift() {
        m2.union(Mods::SHIFT)
    } else {
        m2
    };
    if m.ctrl() {
        lemma_strip_one(Mods::NONE, 'C', s2);
    } else {
        assert(s1 =~= s2);
    }
    if m.alt() {
        lemma_strip_one(m1, 'M', s3);
    } else {
        assert(s2 =~= s3);
    }
    if m.shift() {
        lemma_strip_one(m2, 'S', name);
    } else {
        assert(s3 =~= name);
    }
    assert(strip_mods(Mods::NONE, s1) == (m3, name));
    assert(m3 == m);
}

/// Parsing looks at the text from its position on.
proof fn lemma_parsed_from_suffix(a: Seq<char>, b: Seq<char>, i: int)
    requires
        0 <= i <= b.len(),
    ensures
        parsed_from(a + b, a.len() + i) == parsed_from(b, i),
    decreases b.len() - i,
{
    let s = a + b;
    if i < b.len() {
        assert(s[a.len() + i] == b[i]);
        if b[i] != '<' {
            lemma_parsed_from_suffix(a, b, i + 1);
        } else {
            lemma_close_of_suffix(a, b, i + 1);
            lemma_close_of(b, i + 1);
            let j = close_of(b, i + 1);
            if j < b.len() {
                assert(s.subrange(a.len() + i + 1, a.len() + j) =~= b.subrange(i + 1, j));
                lemma_parsed_from_suffix(a, b, j + 1);
            }
        }
    }
}

proof fn lemma_close_of_suffix(a: Seq<char>, b: Seq<char>, i: int)
    requires
        0 <= i <= b.len(),
    ensures
        close_of(a + b, a.len() + i) == a.len() + close_of(b, i),
    decreases b.len() - i,
{
    if i < b.len() {
        assert((a + b)[a.len() + i] == b[i]);
        lemma_close_of_suffix(a, b, i + 1);
    }
}

/// `close_of` stops at the `>` it meets first.
proof fn lemma_close_at(s: Seq<char>, i: int, j: int)
    requires
        0 <= i <= j < s.len(),
        s[j] == '>',
        forall|k: int| i <= k < j ==> s[k] != '>',
    ensures
        close_of(s, i) == j,
    decreases j - i,
{
    if i < j {
        lemma_close_at(s, i + 1, j);
    }
}

/// One key's notation ahead of a text parses to the key, then the text.
proof fn lemma_parse_one(k: Key, rest: Seq<char>)
    requires
        expressible(k),
    ensures
        parsed_keys(notation(k) + rest) == (match parsed_keys(rest) {
            Ok(ks) => Ok::<Seq<Key>, Fault>(seq![k] + ks),
            Err(e) => Err(e),
        }),
{
    let head = notation(k);
    let s = head + rest;
    lemma_parsed_from_suffix(head, rest, 0);
    if is_bare(k) {
        assert(s[0] == k.code->Char_0);
        assert(k == plain(s[0]));
    } else {
        let inner = mods_notation(k.mods) + code_name(k.code);
        lemma_bracketed(k);
        let j = head.len() - 1;
        assert(s[0] == '<');
        assert(s[j] == '>');
        assert forall|i: int| 1 <= i < j implies s[i] != '>' by {
            assert(s[i] == inner[i - 1]);
        }
        lemma_close_at(s, 1, j);
        assert(s.subrange(1, j) =~= inner);
    }
}

/// Notation is read back as it was written: rendering a key sequence and parsing
/// the result gives the sequence.
pub proof fn notation_reads_back(ks: Seq<Key>)
    requires
        forall|i: int| 0 <= i < ks.len() ==> expressible(#[trigger] ks[i]),
    ensures
        parsed_keys(notations(ks)) == Ok::<Seq<Key>, Fault>(ks),
{
    lemma_reads_back(ks, Seq::empty());
    assert(notations(ks) + Seq::<char>::empty() =~= notations(ks));
    assert(ks + Seq::<Key>::empty() =~= ks);
}

proof fn lemma_reads_back(ks: Seq<Key>, rest: Seq<char>)
    requires
        forall|i: int| 0 <= i < ks.len() ==> expressible(#[trigger] ks[i]),
        parsed_keys(rest) is Ok,
    ensures
        parsed_keys(notations(ks) + rest) == Ok::<Seq<Key>, Fault>(
            ks + parsed_keys(rest)->Ok_0,
        ),
    decreases ks.len(),
{
    if ks.len() == 0 {
        assert(notations(ks) + rest =~= rest);
        assert(ks + parsed_keys(rest)->Ok_0 =~= parsed_keys(rest)->Ok_0);
    } else {
        let front = ks.drop_last();
        let k = ks.last();
        assert(expressible(ks[ks.len() - 1]));
        assert forall|i: int| 0 <= i < front.len() implies expressible(#[trigger] front[i]) by {
            assert(front[i] == ks[i]);
        }
        let tail = notation(k) + rest;
        lemma_parse_one(k, rest);
        lemma_reads_back(front, tail);
        assert(notations(ks) + rest =~= notations(front) + tail);
        let more = parsed_keys(rest)->Ok_0;
        assert(front + (seq![k] + more) =~= ks + more);
    }
}

} // verus!
