//! The `editor.vici` contract.
//!
//! A case is a buffer, a key script, and optional host settings. Running one
//! produces the snapshot block that pins the editor's behaviour. More than one
//! engine consumes this format; a fuzzer that finds drift should emit another case,
//! not a one-off assert.

use vstd::prelude::*;
use vstd::utf8::encode_utf8;

use crate::buffer;
use crate::editor::Editor;
use crate::host::{Indent, Viewport};
use crate::key;
use crate::key::{Fault, ParseError};
use crate::keymap;
use crate::snapshot;
use crate::split;
use crate::state;
use crate::state::EditorState;
use crate::strings;
use crate::strings::to_decimal;
use crate::written;

pub use crate::snapshot::{render_case, render_effect};

verus! {

/// What a host would have told the editor before the keys were typed.
#[derive(Debug, Clone, Copy)]
pub struct Settings {
    pub viewport: Option<Viewport>,
    pub indent: Option<Indent>,
}

impl Settings {
    /// Nothing told.
    pub open spec fn unset() -> Settings {
        Settings { viewport: None, indent: None }
    }
}

impl Default for Settings {
    fn default() -> (r: Self)
        ensures
            r == Settings::unset(),
    {
        Settings { viewport: None, indent: None }
    }
}

/// A buffer, a key script, and host settings.
#[derive(Debug)]
pub struct Case {
    pub name: String,
    pub text: String,
    pub keys: String,
    pub settings: Settings,
}

/// A case, as its characters.
#[verifier::ext_equal]
pub struct CaseState {
    pub name: Seq<char>,
    pub text: Seq<char>,
    pub keys: Seq<char>,
    pub settings: Settings,
}

impl View for Case {
    type V = CaseState;

    open spec fn view(&self) -> CaseState {
        CaseState {
            name: self.name@,
            text: self.text@,
            keys: self.keys@,
            settings: self.settings,
        }
    }
}

impl Clone for Case {
    fn clone(&self) -> (r: Self)
        ensures
            r@ == self@,
    {
        Case {
            name: self.name.clone(),
            text: self.text.clone(),
            keys: self.keys.clone(),
            settings: self.settings,
        }
    }
}

/// The cases that `v` holds.
pub open spec fn views(v: Seq<Case>) -> Seq<CaseState> {
    Seq::new(v.len(), |i: int| v[i]@)
}

/// Why a fixture cannot be read.
#[derive(Debug, Clone, Copy, PartialEq, Eq, Structural)]
pub enum Flaw {
    /// A chunk does not begin with a `case` line that names it.
    Unnamed,
    /// A `text` line runs on without a space.
    MalformedText,
    DuplicateText,
    /// A backslash before a character that it does not escape.
    UnsupportedEscape,
    /// A backslash at the end of a text.
    TrailingBackslash,
    DuplicateKeys,
    DuplicateSettings,
    /// A line that says nothing a case can hold.
    UnknownLine,
    MissingText,
    MissingKeys,
    DuplicateName,
    NoCases,
    /// A setting without `=`.
    NoValue,
    DuplicateViewport,
    DuplicateIndent,
    /// A setting's value that is no number, or too large a one.
    InvalidNumber,
    /// An indent that is neither `tabs` nor `spaces`.
    UnknownIndent,
    /// A setting no case can have, or one with the wrong number of values.
    UnsupportedSetting,
}

// ---------------------------------------------------------------------------
// names
// ---------------------------------------------------------------------------

/// Whether `c` may stand in a name.
pub open spec fn name_char(c: char) -> bool {
    'a' <= c && c <= 'z' || '0' <= c && c <= '9' || c == '-'
}

/// Whether `s` is kebab-case.
pub open spec fn is_name(s: Seq<char>) -> bool {
    &&& s.len() > 0
    &&& s[0] != '-'
    &&& s.last() != '-'
    &&& forall|i: int| 0 <= i < s.len() ==> name_char(#[trigger] s[i])
}

/// Whether `name` is kebab-case.
#[must_use]
pub fn valid_name(name: &str) -> (r: bool)
    ensures
        r == is_name(name@),
{
    let chars: Vec<char> = strings::chars_of(name);
    let n: usize = chars.len();
    if n == 0 || chars[0] == '-' || chars[n - 1] == '-' {
        return false;
    }
    let mut i: usize = 0;
    while i < n
        invariant
            i <= n,
            n == chars.len(),
            chars@ == name@,
            forall|k: int| 0 <= k < i ==> name_char(#[trigger] chars@[k]),
        decreases n - i,
    {
        let c: char = chars[i];
        if !('a' <= c && c <= 'z' || '0' <= c && c <= '9' || c == '-') {
            return false;
        }
        i += 1;
    }
    true
}

// ---------------------------------------------------------------------------
// escapes
// ---------------------------------------------------------------------------

/// What a backslash before `c` stands for.
pub open spec fn escape(c: char) -> Option<char> {
    if c == 'n' {
        Some('\n')
    } else if c == 'r' {
        Some('\r')
    } else if c == 't' {
        Some('\t')
    } else if c == '\\' {
        Some('\\')
    } else {
        None
    }
}

/// `c` put before what was read.
pub open spec fn led(c: char, rest: Result<Seq<char>, Flaw>) -> Result<Seq<char>, Flaw> {
    match rest {
        Ok(s) => Ok(seq![c] + s),
        Err(flaw) => Err(flaw),
    }
}

/// What `s` stands for once its escapes are read.
pub open spec fn unescaped(s: Seq<char>) -> Result<Seq<char>, Flaw>
    decreases s.len(),
{
    if s.len() == 0 {
        Ok(Seq::empty())
    } else if s[0] != '\\' {
        led(s[0], unescaped(s.skip(1)))
    } else if s.len() == 1 {
        Err(Flaw::TrailingBackslash)
    } else {
        match escape(s[1]) {
            Some(c) => led(c, unescaped(s.skip(2))),
            None => Err(Flaw::UnsupportedEscape),
        }
    }
}

/// `start` put before what was read.
pub open spec fn headed(start: Seq<char>, rest: Result<Seq<char>, Flaw>) -> Result<
    Seq<char>,
    Flaw,
> {
    match rest {
        Ok(s) => Ok(start + s),
        Err(flaw) => Err(flaw),
    }
}

/// The text that `chars` stand for.
fn read_text(chars: &[char]) -> (r: Result<String, Flaw>)
    ensures
        match r {
            Ok(s) => unescaped(chars@) == Ok::<Seq<char>, Flaw>(s@),
            Err(flaw) => unescaped(chars@) == Err::<Seq<char>, Flaw>(flaw),
        },
{
    let mut out = String::new();
    let mut i: usize = 0;
    proof {
        assert(chars@.skip(0) =~= chars@);
        if let Ok(s) = unescaped(chars@) {
            assert(Seq::<char>::empty() + s =~= s);
        }
    }
    while i < chars.len()
        invariant
            i <= chars.len(),
            headed(out@, unescaped(chars@.skip(i as int))) == unescaped(chars@),
        decreases chars.len() - i,
    {
        let ghost rest = chars@.skip(i as int);
        let ghost sofar = out@;
        let c: char = chars[i];
        proof {
            assert(rest.skip(1) =~= chars@.skip(i + 1));
            assert forall|x: char, s: Seq<char>| #![trigger sofar.push(x) + s]
                sofar + (seq![x] + s) == sofar.push(x) + s by {
                assert(sofar + (seq![x] + s) =~= sofar.push(x) + s);
            }
        }
        if c != '\\' {
            out.push(c);
            i += 1;
        } else {
            if i + 1 == chars.len() {
                return Err(Flaw::TrailingBackslash);
            }
            let d: char = chars[i + 1];
            proof {
                assert(rest[1] == d);
                assert(rest.skip(2) =~= chars@.skip(i + 2));
            }
            let e: char = if d == 'n' {
                '\n'
            } else if d == 'r' {
                '\r'
            } else if d == 't' {
                '\t'
            } else if d == '\\' {
                '\\'
            } else {
                return Err(Flaw::UnsupportedEscape);
            };
            out.push(e);
            i += 2;
        }
    }
    proof {
        assert(chars@.skip(i as int) =~= Seq::empty());
        assert(out@ + Seq::<char>::empty() =~= out@);
    }
    Ok(out)
}

/// The text that `value`, in the case `name`, stands for once its escapes are read.
#[must_use]
pub fn unescape(value: &str, name: &str) -> (r: String)
    requires
        unescaped(value@) is Ok,
    ensures
        unescaped(value@) == Ok::<Seq<char>, Flaw>(r@),
{
    let chars: Vec<char> = strings::chars_of(value);
    match read_text(chars.as_slice()) {
        Ok(text) => text,
        Err(_) => String::new(),
    }
}

/// How `c` is written where a line must hold it.
pub open spec fn escaped_char(c: char) -> Seq<char> {
    if c == '\n' {
        seq!['\\', 'n']
    } else if c == '\r' {
        seq!['\\', 'r']
    } else if c == '\t' {
        seq!['\\', 't']
    } else if c == '\\' {
        seq!['\\', '\\']
    } else {
        seq![c]
    }
}

/// How `s` is written where a line must hold it.
pub open spec fn escaped(s: Seq<char>) -> Seq<char>
    decreases s.len(),
{
    if s.len() == 0 {
        Seq::empty()
    } else {
        escaped(s.drop_last()) + escaped_char(s.last())
    }
}

/// Escape a buffer so it can sit on a `text` line.
#[must_use]
pub fn escape_text(value: &str) -> (r: String)
    ensures
        r@ == escaped(value@),
{
    let chars: Vec<char> = strings::chars_of(value);
    let mut out = String::new();
    let mut i: usize = 0;
    proof {
        assert(chars@.take(0) =~= Seq::empty());
    }
    while i < chars.len()
        invariant
            i <= chars.len(),
            out@ == escaped(chars@.take(i as int)),
        decreases chars.len() - i,
    {
        let c: char = chars[i];
        let ghost sofar = out@;
        proof {
            let t = chars@.take(i + 1);
            assert(t.drop_last() =~= chars@.take(i as int));
            assert(t.last() == c);
        }
        if c == '\n' {
            out.push('\\');
            out.push('n');
        } else if c == '\r' {
            out.push('\\');
            out.push('r');
        } else if c == '\t' {
            out.push('\\');
            out.push('t');
        } else if c == '\\' {
            out.push('\\');
            out.push('\\');
        } else {
            out.push(c);
        }
        assert(out@ =~= sofar + escaped_char(c));
        i += 1;
    }
    proof {
        assert(chars@.take(i as int) =~= value@);
    }
    out
}

proof fn lemma_unescape_one(c: char, rest: Seq<char>)
    ensures
        unescaped(escaped_char(c) + rest) == led(c, unescaped(rest)),
{
    let s = escaped_char(c) + rest;
    if escaped_char(c).len() == 2 {
        assert(s.skip(2) =~= rest);
        assert(s[0] == '\\');
        assert(s[1] == escaped_char(c)[1]);
    } else {
        assert(s.skip(1) =~= rest);
        assert(s[0] == c);
    }
}

/// Reading the escapes of an escaped text gives the text back.
pub proof fn escapes_read_back(s: Seq<char>)
    ensures
        unescaped(escaped(s)) == Ok::<Seq<char>, Flaw>(s),
{
    lemma_escapes_read_back(s, Seq::empty());
    assert(escaped(s) + Seq::<char>::empty() =~= escaped(s));
    assert(s + Seq::<char>::empty() =~= s);
}

proof fn lemma_escapes_read_back(s: Seq<char>, rest: Seq<char>)
    ensures
        unescaped(escaped(s) + rest) == headed(s, unescaped(rest)),
    decreases s.len(),
{
    if s.len() == 0 {
        assert(escaped(s) + rest =~= rest);
        if let Ok(r) = unescaped(rest) {
            assert(s + r =~= r);
        }
    } else {
        let more = escaped_char(s.last()) + rest;
        assert(escaped(s) + rest =~= escaped(s.drop_last()) + more);
        lemma_escapes_read_back(s.drop_last(), more);
        lemma_unescape_one(s.last(), rest);
        if let Ok(r) = unescaped(rest) {
            assert(s.drop_last() + (seq![s.last()] + r) =~= s + r);
        }
    }
}

// ---------------------------------------------------------------------------
// settings
// ---------------------------------------------------------------------------

/// The number that a setting's value writes.
pub open spec fn setting_number(s: Seq<char>) -> Option<usize> {
    match strings::parsed(s, usize::MAX as int) {
        Some(n) => Some(n as usize),
        None => None,
    }
}

/// `viewport` set to what `values` say.
pub open spec fn viewport_set(settings: Settings, values: Seq<Seq<char>>) -> Result<
    Settings,
    Flaw,
> {
    if settings.viewport is Some {
        Err(Flaw::DuplicateViewport)
    } else {
        match (setting_number(values[0]), setting_number(values[1])) {
            (Some(top_row), Some(height)) => Ok(
                Settings { viewport: Some(Viewport { top_row, height }), ..settings },
            ),
            _ => Err(Flaw::InvalidNumber),
        }
    }
}

/// `indent` set to what `values` say.
pub open spec fn indent_set(settings: Settings, values: Seq<Seq<char>>) -> Result<
    Settings,
    Flaw,
> {
    if settings.indent is Some {
        Err(Flaw::DuplicateIndent)
    } else {
        match (setting_number(values[0]), setting_number(values[1])) {
            (Some(shift_width), Some(tab_width)) => if values[2] == "tabs"@ {
                Ok(
                    Settings {
                        indent: Some(Indent { shift_width, tab_width, use_tabs: true }),
                        ..settings
                    },
                )
            } else if values[2] == "spaces"@ {
                Ok(
                    Settings {
                        indent: Some(Indent { shift_width, tab_width, use_tabs: false }),
                        ..settings
                    },
                )
            } else {
                Err(Flaw::UnknownIndent)
            },
            _ => Err(Flaw::InvalidNumber),
        }
    }
}

/// `settings` once `word` has been read.
pub open spec fn setting_read(settings: Settings, word: Seq<char>) -> Result<Settings, Flaw> {
    match split::found(word, seq!['='], 0) {
        None => Err(Flaw::NoValue),
        Some(at) => {
            let name = word.take(at);
            let values = split::pieces(word.skip(at + 1), seq![','], 0);
            if name == "viewport"@ && values.len() == 2 {
                viewport_set(settings, values)
            } else if name == "indent"@ && values.len() == 3 {
                indent_set(settings, values)
            } else {
                Err(Flaw::UnsupportedSetting)
            }
        },
    }
}

/// `settings` once the words from the `i`th on have been read.
pub open spec fn settings_from(settings: Settings, words: Seq<Seq<char>>, i: int) -> Result<
    Settings,
    Flaw,
>
    decreases words.len() - i,
{
    if i >= words.len() {
        Ok(settings)
    } else {
        match setting_read(settings, words[i]) {
            Ok(next) => settings_from(next, words, i + 1),
            Err(flaw) => Err(flaw),
        }
    }
}

/// What a `with` line sets.
pub open spec fn settings_of(s: Seq<char>) -> Result<Settings, Flaw> {
    settings_from(Settings::unset(), split::words_from(s, 0), 0)
}

/// The number that `chars` write.
fn number(chars: &Vec<char>) -> (r: Option<usize>)
    ensures
        r == setting_number(chars@),
{
    strings::parse_number(chars.as_slice(), usize::MAX)
}

fn set_viewport(settings: Settings, values: &Vec<Vec<char>>) -> (r: Result<Settings, Flaw>)
    requires
        values.len() == 2,
    ensures
        r == viewport_set(settings, split::texts(values@)),
{
    if settings.viewport.is_some() {
        return Err(Flaw::DuplicateViewport);
    }
    match (number(&values[0]), number(&values[1])) {
        (Some(top_row), Some(height)) => Ok(
            Settings { viewport: Some(Viewport { top_row, height }), indent: settings.indent },
        ),
        _ => Err(Flaw::InvalidNumber),
    }
}

fn set_indent(settings: Settings, values: &Vec<Vec<char>>) -> (r: Result<Settings, Flaw>)
    requires
        values.len() == 3,
    ensures
        r == indent_set(settings, split::texts(values@)),
{
    if settings.indent.is_some() {
        return Err(Flaw::DuplicateIndent);
    }
    match (number(&values[0]), number(&values[1])) {
        (Some(shift_width), Some(tab_width)) => {
            let use_tabs: bool = if strings::spell(values[2].as_slice(), "tabs") {
                true
            } else if strings::spell(values[2].as_slice(), "spaces") {
                false
            } else {
                return Err(Flaw::UnknownIndent);
            };
            Ok(
                Settings {
                    viewport: settings.viewport,
                    indent: Some(Indent { shift_width, tab_width, use_tabs }),
                },
            )
        },
        _ => Err(Flaw::InvalidNumber),
    }
}

fn read_setting(settings: Settings, word: &Vec<char>) -> (r: Result<Settings, Flaw>)
    ensures
        r == setting_read(settings, word@),
{
    let equals: Vec<char> = vec!['='];
    let comma: Vec<char> = vec![','];
    proof {
        assert(equals@ =~= seq!['=']);
        assert(comma@ =~= seq![',']);
        split::lemma_found(word@, seq!['='], 0);
    }
    match split::find(word.as_slice(), equals.as_slice(), 0) {
        None => Err(Flaw::NoValue),
        Some(at) => {
            assert(split::stands(word@, equals@, at as int) && equals@.len() == 1);
            assert(at + 1 <= word@.len() == word.len());
            let name: Vec<char> = split::copied(word.as_slice(), 0, at);
            let list: Vec<char> = split::copied(word.as_slice(), at + 1, word.len());
            proof {
                assert(name@ =~= word@.take(at as int));
                assert(list@ =~= word@.skip(at + 1));
            }
            let values: Vec<Vec<char>> = split::split(list.as_slice(), comma.as_slice());
            assert(values.len() == split::texts(values@).len());
            if strings::spell(name.as_slice(), "viewport") && values.len() == 2 {
                set_viewport(settings, &values)
            } else if strings::spell(name.as_slice(), "indent") && values.len() == 3 {
                set_indent(settings, &values)
            } else {
                Err(Flaw::UnsupportedSetting)
            }
        },
    }
}

fn read_settings(value: &[char]) -> (r: Result<Settings, Flaw>)
    ensures
        r == settings_of(value@),
{
    let words: Vec<Vec<char>> = split::words(value);
    let ghost all = split::texts(words@);
    let mut settings: Settings = Settings::default();
    let mut i: usize = 0;
    while i < words.len()
        invariant
            i <= words.len(),
            all == split::texts(words@),
            all == split::words_from(value@, 0),
            settings_from(settings, all, i as int) == settings_from(Settings::unset(), all, 0),
        decreases words.len() - i,
    {
        assert(all[i as int] == words[i as int]@);
        match read_setting(settings, &words[i]) {
            Ok(next) => {
                settings = next;
            },
            Err(flaw) => {
                return Err(flaw);
            },
        }
        i += 1;
    }
    Ok(settings)
}

/// What the `with` line of the case `name` sets. Settings are separated by spaces,
/// their values by commas: `with viewport=0,6 indent=4,8,spaces`.
#[must_use]
pub fn parse_settings(value: &str, name: &str) -> (r: Settings)
    requires
        settings_of(value@) is Ok,
    ensures
        settings_of(value@) == Ok::<Settings, Flaw>(r),
{
    let chars: Vec<char> = strings::chars_of(value);
    match read_settings(chars.as_slice()) {
        Ok(settings) => settings,
        Err(_) => Settings::default(),
    }
}

/// What a `with` line sets, or why it cannot be read.
pub fn check_settings(value: &str, name: &str) -> (r: Result<Settings, Flaw>)
    ensures
        r == settings_of(value@),
{
    let chars: Vec<char> = strings::chars_of(value);
    match read_settings(chars.as_slice()) {
        Ok(_) => Ok(parse_settings(value, name)),
        Err(flaw) => Err(flaw),
    }
}

// ---------------------------------------------------------------------------
// cases
// ---------------------------------------------------------------------------

/// What the lines of a case have said so far.
#[verifier::ext_equal]
pub struct DraftState {
    pub text: Option<Seq<char>>,
    pub keys: Option<Seq<char>>,
    pub settings: Option<Settings>,
}

impl DraftState {
    /// Nothing said.
    pub open spec fn blank() -> DraftState {
        DraftState { text: None, keys: None, settings: None }
    }

    /// After a `text` line that goes on with `value`.
    pub open spec fn text_read(self, value: Seq<char>) -> Result<DraftState, Flaw> {
        if value.len() > 0 && value[0] != ' ' {
            Err(Flaw::MalformedText)
        } else if self.text is Some {
            Err(Flaw::DuplicateText)
        } else {
            match unescaped(
                if value.len() > 0 {
                    value.skip(1)
                } else {
                    value
                },
            ) {
                Ok(text) => Ok(DraftState { text: Some(text), ..self }),
                Err(flaw) => Err(flaw),
            }
        }
    }

    /// After a `with` line that goes on with `value`.
    pub open spec fn settings_read(self, value: Seq<char>) -> Result<DraftState, Flaw> {
        if self.settings is Some {
            Err(Flaw::DuplicateSettings)
        } else {
            match settings_of(value) {
                Ok(settings) => Ok(DraftState { settings: Some(settings), ..self }),
                Err(flaw) => Err(flaw),
            }
        }
    }

    /// After `line`.
    pub open spec fn read(self, line: Seq<char>) -> Result<DraftState, Flaw> {
        match split::after(line, "text"@) {
            Some(value) => self.text_read(value),
            None => match split::after(line, "keys "@) {
                Some(value) => if self.keys is Some {
                    Err(Flaw::DuplicateKeys)
                } else {
                    Ok(DraftState { keys: Some(value), ..self })
                },
                None => match split::after(line, "with "@) {
                    Some(value) => self.settings_read(value),
                    None => Err(Flaw::UnknownLine),
                },
            },
        }
    }

    /// After the lines from the `i`th on.
    pub open spec fn read_from(self, lines: Seq<Seq<char>>, i: int) -> Result<DraftState, Flaw>
        decreases lines.len() - i,
    {
        if i >= lines.len() {
            Ok(self)
        } else {
            match self.read(lines[i]) {
                Ok(next) => next.read_from(lines, i + 1),
                Err(flaw) => Err(flaw),
            }
        }
    }

    /// The case called `name` that the lines have said.
    pub open spec fn named(self, name: Seq<char>) -> Result<CaseState, Flaw> {
        match (self.text, self.keys) {
            (None, _) => Err(Flaw::MissingText),
            (Some(_), None) => Err(Flaw::MissingKeys),
            (Some(text), Some(keys)) => Ok(
                CaseState {
                    name,
                    text,
                    keys,
                    settings: match self.settings {
                        Some(settings) => settings,
                        None => Settings::unset(),
                    },
                },
            ),
        }
    }
}

/// The case that the telling lines of a chunk say.
pub open spec fn case_of(lines: Seq<Seq<char>>) -> Result<CaseState, Flaw> {
    match split::after(lines[0], "case "@) {
        Some(name) if is_name(name) => match DraftState::blank().read_from(lines, 1) {
            Ok(draft) => draft.named(name),
            Err(flaw) => Err(flaw),
        },
        _ => Err(Flaw::Unnamed),
    }
}

/// Whether a case of `cases` is called `name`.
pub open spec fn taken(cases: Seq<CaseState>, name: Seq<char>) -> bool {
    exists|i: int| 0 <= i < cases.len() && (#[trigger] cases[i]).name == name
}

/// `cases`, and those of the chunks from the `i`th on. A chunk that says nothing is
/// passed over.
pub open spec fn cases_from(cases: Seq<CaseState>, chunks: Seq<Seq<char>>, i: int) -> Result<
    Seq<CaseState>,
    Flaw,
>
    decreases chunks.len() - i,
{
    if i >= chunks.len() {
        Ok(cases)
    } else {
        let lines = split::telling_lines(chunks[i]);
        if lines.len() == 0 {
            cases_from(cases, chunks, i + 1)
        } else {
            match case_of(lines) {
                Ok(case) => if taken(cases, case.name) {
                    Err(Flaw::DuplicateName)
                } else {
                    cases_from(cases.push(case), chunks, i + 1)
                },
                Err(flaw) => Err(flaw),
            }
        }
    }
}

/// The cases that a fixture holds.
pub open spec fn cases_of(s: Seq<char>) -> Result<Seq<CaseState>, Flaw> {
    match cases_from(Seq::empty(), split::pieces(s, "\n---\n"@, 0), 0) {
        Ok(cases) => if cases.len() == 0 {
            Err(Flaw::NoCases)
        } else {
            Ok(cases)
        },
        Err(flaw) => Err(flaw),
    }
}

struct Draft {
    text: Option<String>,
    keys: Option<String>,
    settings: Option<Settings>,
}

impl View for Draft {
    type V = DraftState;

    closed spec fn view(&self) -> DraftState {
        DraftState {
            text: match self.text {
                Some(text) => Some(text@),
                None => None,
            },
            keys: match self.keys {
                Some(keys) => Some(keys@),
                None => None,
            },
            settings: self.settings,
        }
    }
}

impl Draft {
    fn read_text_line(self, value: &Vec<char>) -> (r: Result<Draft, Flaw>)
        ensures
            match r {
                Ok(draft) => self@.text_read(value@) == Ok::<DraftState, Flaw>(draft@),
                Err(flaw) => self@.text_read(value@) == Err::<DraftState, Flaw>(flaw),
            },
    {
        if value.len() > 0 && value[0] != ' ' {
            return Err(Flaw::MalformedText);
        }
        if self.text.is_some() {
            return Err(Flaw::DuplicateText);
        }
        let start: usize = if value.len() > 0 {
            1
        } else {
            0
        };
        let rest: Vec<char> = split::copied(value.as_slice(), start, value.len());
        proof {
            assert(rest@ =~= if value@.len() > 0 {
                value@.skip(1)
            } else {
                value@
            });
        }
        match read_text(rest.as_slice()) {
            Ok(text) => Ok(
                Draft { text: Some(text), keys: self.keys, settings: self.settings },
            ),
            Err(flaw) => Err(flaw),
        }
    }

    fn read_settings_line(self, value: &Vec<char>) -> (r: Result<Draft, Flaw>)
        ensures
            match r {
                Ok(draft) => self@.settings_read(value@) == Ok::<DraftState, Flaw>(draft@),
                Err(flaw) => self@.settings_read(value@) == Err::<DraftState, Flaw>(flaw),
            },
    {
        if self.settings.is_some() {
            return Err(Flaw::DuplicateSettings);
        }
        match read_settings(value.as_slice()) {
            Ok(settings) => Ok(
                Draft { text: self.text, keys: self.keys, settings: Some(settings) },
            ),
            Err(flaw) => Err(flaw),
        }
    }

    fn read_line(self, line: &Vec<char>) -> (r: Result<Draft, Flaw>)
        ensures
            match r {
                Ok(draft) => self@.read(line@) == Ok::<DraftState, Flaw>(draft@),
                Err(flaw) => self@.read(line@) == Err::<DraftState, Flaw>(flaw),
            },
    {
        if let Some(value) = split::strip(line.as_slice(), "text") {
            return self.read_text_line(&value);
        }
        if let Some(value) = split::strip(line.as_slice(), "keys ") {
            if self.keys.is_some() {
                return Err(Flaw::DuplicateKeys);
            }
            let keys: String = strings::from_chars(value.as_slice());
            return Ok(Draft { text: self.text, keys: Some(keys), settings: self.settings });
        }
        if let Some(value) = split::strip(line.as_slice(), "with ") {
            return self.read_settings_line(&value);
        }
        Err(Flaw::UnknownLine)
    }

    fn into_case(self, name: String) -> (r: Result<Case, Flaw>)
        ensures
            match r {
                Ok(case) => self@.named(name@) == Ok::<CaseState, Flaw>(case@),
                Err(flaw) => self@.named(name@) == Err::<CaseState, Flaw>(flaw),
            },
    {
        match (self.text, self.keys) {
            (None, _) => Err(Flaw::MissingText),
            (Some(_), None) => Err(Flaw::MissingKeys),
            (Some(text), Some(keys)) => {
                let settings: Settings = match self.settings {
                    Some(settings) => settings,
                    None => Settings::default(),
                };
                Ok(Case { name, text, keys, settings })
            },
        }
    }
}

fn read_case(lines: &Vec<Vec<char>>) -> (r: Result<Case, Flaw>)
    requires
        lines.len() > 0,
    ensures
        match r {
            Ok(case) => case_of(split::texts(lines@)) == Ok::<CaseState, Flaw>(case@),
            Err(flaw) => case_of(split::texts(lines@)) == Err::<CaseState, Flaw>(flaw),
        },
{
    let ghost all = split::texts(lines@);
    assert(all[0] == lines[0]@);
    let name: String = match split::strip(lines[0].as_slice(), "case ") {
        Some(name) => strings::from_chars(name.as_slice()),
        None => {
            return Err(Flaw::Unnamed);
        },
    };
    if !valid_name(name.as_str()) {
        return Err(Flaw::Unnamed);
    }
    let mut draft: Draft = Draft { text: None, keys: None, settings: None };
    let mut i: usize = 1;
    while i < lines.len()
        invariant
            1 <= i <= lines.len(),
            all == split::texts(lines@),
            split::after(all[0], "case "@) == Some(name@),
            is_name(name@),
            draft@.read_from(all, i as int) == DraftState::blank().read_from(all, 1),
        decreases lines.len() - i,
    {
        assert(all[i as int] == lines[i as int]@);
        match draft.read_line(&lines[i]) {
            Ok(next) => {
                draft = next;
            },
            Err(flaw) => {
                return Err(flaw);
            },
        }
        i += 1;
    }
    draft.into_case(name)
}

fn is_taken(cases: &Vec<Case>, name: &str) -> (r: bool)
    ensures
        r == taken(views(cases@), name@),
{
    let chars: Vec<char> = strings::chars_of(name);
    let mut i: usize = 0;
    while i < cases.len()
        invariant
            i <= cases.len(),
            chars@ == name@,
            forall|k: int| 0 <= k < i ==> (#[trigger] views(cases@)[k]).name != name@,
        decreases cases.len() - i,
    {
        if strings::spell(chars.as_slice(), cases[i].name.as_str()) {
            assert(views(cases@)[i as int].name == name@);
            return true;
        }
        i += 1;
    }
    false
}

fn read_cases(fixture: &str) -> (r: Result<Vec<Case>, Flaw>)
    ensures
        match r {
            Ok(cases) => cases_of(fixture@) == Ok::<Seq<CaseState>, Flaw>(views(cases@)),
            Err(flaw) => cases_of(fixture@) == Err::<Seq<CaseState>, Flaw>(flaw),
        },
{
    let chars: Vec<char> = strings::chars_of(fixture);
    let rule: Vec<char> = strings::chars_of("\n---\n");
    proof {
        reveal_strlit("\n---\n");
    }
    let chunks: Vec<Vec<char>> = split::split(chars.as_slice(), rule.as_slice());
    let ghost all = split::texts(chunks@);
    let mut cases: Vec<Case> = Vec::new();
    let mut i: usize = 0;
    assert(views(cases@) =~= Seq::empty());
    while i < chunks.len()
        invariant
            i <= chunks.len(),
            all == split::texts(chunks@),
            all == split::pieces(fixture@, "\n---\n"@, 0),
            cases_from(views(cases@), all, i as int) == cases_from(Seq::empty(), all, 0),
        decreases chunks.len() - i,
    {
        assert(all[i as int] == chunks[i as int]@);
        let lines: Vec<Vec<char>> = split::lines(chunks[i].as_slice());
        assert(lines.len() == split::texts(lines@).len());
        if lines.len() > 0 {
            match read_case(&lines) {
                Ok(case) => {
                    if is_taken(&cases, case.name.as_str()) {
                        return Err(Flaw::DuplicateName);
                    }
                    proof {
                        assert(views(cases@.push(case)) =~= views(cases@).push(case@));
                    }
                    cases.push(case);
                },
                Err(flaw) => {
                    return Err(flaw);
                },
            }
        }
        i += 1;
    }
    assert(views(cases@).len() == cases.len());
    if cases.len() == 0 {
        return Err(Flaw::NoCases);
    }
    Ok(cases)
}

/// Read the `editor.vici` grammar. A malformed fixture is a contract-authoring
/// error, not a runtime one: [`check_cases`] says what is wrong with it.
#[must_use]
pub fn parse_cases(fixture: &str) -> (r: Vec<Case>)
    requires
        cases_of(fixture@) is Ok,
    ensures
        cases_of(fixture@) == Ok::<Seq<CaseState>, Flaw>(views(r@)),
{
    match read_cases(fixture) {
        Ok(cases) => cases,
        Err(_) => Vec::new(),
    }
}

/// The cases that a fixture holds, or why it cannot be read.
pub fn check_cases(fixture: &str) -> (r: Result<Vec<Case>, Flaw>)
    ensures
        match r {
            Ok(cases) => cases_of(fixture@) == Ok::<Seq<CaseState>, Flaw>(views(cases@)),
            Err(flaw) => cases_of(fixture@) == Err::<Seq<CaseState>, Flaw>(flaw),
        },
{
    match read_cases(fixture) {
        Ok(_) => Ok(parse_cases(fixture)),
        Err(flaw) => Err(flaw),
    }
}

/// Every case of a fixture has a name, and no two have the same.
pub proof fn cases_are_named_apart(s: Seq<char>)
    ensures
        match cases_of(s) {
            Ok(cases) => cases.len() > 0 && named_apart(cases),
            Err(_) => true,
        },
{
    lemma_named_apart(Seq::empty(), split::pieces(s, "\n---\n"@, 0), 0);
}

/// Whether every case has a name of its own.
pub open spec fn named_apart(cases: Seq<CaseState>) -> bool {
    &&& forall|i: int| 0 <= i < cases.len() ==> is_name((#[trigger] cases[i]).name)
    &&& forall|i: int, j: int|
        0 <= i < j < cases.len() ==> (#[trigger] cases[i]).name != (#[trigger] cases[j]).name
}

proof fn lemma_named_apart(cases: Seq<CaseState>, chunks: Seq<Seq<char>>, i: int)
    requires
        named_apart(cases),
    ensures
        match cases_from(cases, chunks, i) {
            Ok(all) => named_apart(all),
            Err(_) => true,
        },
    decreases chunks.len() - i,
{
    if i < chunks.len() {
        let lines = split::telling_lines(chunks[i]);
        if lines.len() == 0 {
            lemma_named_apart(cases, chunks, i + 1);
        } else if let Ok(case) = case_of(lines) {
            if !taken(cases, case.name) {
                lemma_named_apart(cases.push(case), chunks, i + 1);
            }
        }
    }
}

// ---------------------------------------------------------------------------
// running
// ---------------------------------------------------------------------------

/// The editor a case begins with.
pub open spec fn opened(case: CaseState) -> EditorState {
    let s = EditorState::fresh(encode_utf8(case.text), keymap::vim_state());
    EditorState {
        viewport: match case.settings.viewport {
            Some(viewport) => viewport,
            None => s.viewport,
        },
        indent: match case.settings.indent {
            Some(indent) => indent,
            None => s.indent,
        },
        ..s
    }
}

/// The snapshot block of a case, or what is wrong with its keys.
pub open spec fn outcome(case: CaseState) -> Result<Seq<char>, Fault> {
    match key::parsed_keys(case.keys) {
        Ok(ks) => {
            let t = state::all_handled(opened(case), ks, 0, 0);
            Ok(snapshot::block(case.name, t.state, t.effects))
        },
        Err(fault) => Err(fault),
    }
}

/// Drive the editor and return one snapshot block, with the blank line that separates
/// it from the next.
pub fn run_case(case: &Case) -> (r: Result<String, ParseError>)
    requires
        encode_utf8(case.text@).len() <= buffer::MAX_LEN,
    ensures
        match r {
            Ok(out) => outcome(case@) == Ok::<Seq<char>, Fault>(out@),
            Err(error) => outcome(case@) == Err::<Seq<char>, Fault>(error@),
        },
{
    let mut editor: Editor = Editor::from_text(case.text.as_str());
    if let Some(viewport) = case.settings.viewport {
        editor.set_viewport(viewport);
    }
    if let Some(indent) = case.settings.indent {
        editor.set_indent(indent);
    }
    assert(editor@ == opened(case@));
    match editor.type_keys(case.keys.as_str()) {
        Ok(effects) => {
            let mut out = String::new();
            render_case(&mut out, case.name.as_str(), &editor, effects.as_slice());
            assert(Seq::<char>::empty() + snapshot::block(case.name@, editor@, effects@)
                =~= snapshot::block(case.name@, editor@, effects@));
            Ok(out)
        },
        Err(error) => Err(error),
    }
}

// ---------------------------------------------------------------------------
// writing
// ---------------------------------------------------------------------------

/// A viewport, as a setting.
pub open spec fn viewport_word(viewport: Viewport) -> Seq<char> {
    "viewport="@ + strings::decimal(viewport.top_row as int) + ","@ + strings::decimal(
        viewport.height as int,
    )
}

/// An indent, as a setting.
pub open spec fn indent_word(indent: Indent) -> Seq<char> {
    "indent="@ + strings::decimal(indent.shift_width as int) + ","@ + strings::decimal(
        indent.tab_width as int,
    ) + ","@ + if indent.use_tabs {
        "tabs"@
    } else {
        "spaces"@
    }
}

/// What a `with` line says, where there is one.
pub open spec fn with_value(settings: Settings) -> Option<Seq<char>> {
    match (settings.viewport, settings.indent) {
        (None, None) => None,
        (Some(viewport), None) => Some(viewport_word(viewport)),
        (None, Some(indent)) => Some(indent_word(indent)),
        (Some(viewport), Some(indent)) => Some(
            viewport_word(viewport) + " "@ + indent_word(indent),
        ),
    }
}

/// A case in the fixture grammar.
pub open spec fn formatted(case: CaseState) -> Seq<char> {
    let s = "case "@ + case.name + "\ntext "@ + escaped(case.text) + "\nkeys "@ + case.keys;
    match with_value(case.settings) {
        Some(value) => s + "\nwith "@ + value + "\n"@,
        None => s + "\n"@,
    }
}

fn format_viewport(viewport: Viewport) -> (r: String)
    ensures
        r@ == viewport_word(viewport),
{
    let mut out: String = "viewport=".to_owned();
    out.push_str(to_decimal(viewport.top_row).as_str());
    out.push_str(",");
    out.push_str(to_decimal(viewport.height).as_str());
    out
}

fn format_indent(indent: Indent) -> (r: String)
    ensures
        r@ == indent_word(indent),
{
    let mut out: String = "indent=".to_owned();
    out.push_str(to_decimal(indent.shift_width).as_str());
    out.push_str(",");
    out.push_str(to_decimal(indent.tab_width).as_str());
    out.push_str(",");
    out.push_str(
        if indent.use_tabs {
            "tabs"
        } else {
            "spaces"
        },
    );
    out
}

fn format_settings(settings: Settings) -> (r: Option<String>)
    ensures
        match r {
            Some(value) => with_value(settings) == Some(value@),
            None => with_value(settings) is None,
        },
{
    match (settings.viewport, settings.indent) {
        (None, None) => None,
        (Some(viewport), None) => Some(format_viewport(viewport)),
        (None, Some(indent)) => Some(format_indent(indent)),
        (Some(viewport), Some(indent)) => {
            let mut out: String = format_viewport(viewport);
            out.push_str(" ");
            out.push_str(format_indent(indent).as_str());
            Some(out)
        },
    }
}

/// Write a case back in the fixture grammar so a fuzzer hit can be pasted in. A case
/// with a valid name, whose keys fit on a line, reads back as it was.
#[must_use]
pub fn format_case(case: &Case) -> (r: String)
    ensures
        r@ == formatted(case@),
        is_name(case.name@) && written::one_line(case.keys@) ==> cases_of(r@) == Ok::<
            Seq<CaseState>,
            Flaw,
        >(seq![case@]),
{
    proof {
        if is_name(case.name@) && written::one_line(case.keys@) {
            written::a_written_case_reads_back(case@);
        }
    }
    let mut out: String = "case ".to_owned();
    out.push_str(case.name.as_str());
    out.push_str("\ntext ");
    out.push_str(escape_text(case.text.as_str()).as_str());
    out.push_str("\nkeys ");
    out.push_str(case.keys.as_str());
    if let Some(value) = format_settings(case.settings) {
        out.push_str("\nwith ");
        out.push_str(value.as_str());
    }
    out.push_str("\n");
    out
}

} // verus!
