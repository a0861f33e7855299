//! Reading fixtures that a generator wrote.
//!
//! The differential harness diffs snapshot blocks. A generator that emits something
//! malformed should hear about it in the diff rather than in a failed process, so
//! whatever cannot be understood here is passed over.

use vstd::prelude::*;

use crate::fixtures;
use crate::fixtures::{Case, CaseState, DraftState, Flaw, Settings};
use crate::host::{Indent, Viewport};
use crate::split;
use crate::strings;

verus! {

/// What `s` stands for once its escapes are read. A backslash before any other
/// character stands for that character, and one at the end for nothing.
pub open spec fn unescaped(s: Seq<char>) -> Seq<char>
    decreases s.len(),
{
    if s.len() == 0 {
        Seq::empty()
    } else if s[0] != '\\' {
        seq![s[0]] + unescaped(s.skip(1))
    } else if s.len() == 1 {
        Seq::empty()
    } else {
        let c = match fixtures::escape(s[1]) {
            Some(c) => c,
            None => s[1],
        };
        seq![c] + unescaped(s.skip(2))
    }
}

/// The text that `chars` stand for once their escapes are read.
pub fn unescape(chars: &[char]) -> (r: String)
    ensures
        r@ == unescaped(chars@),
{
    let mut out = String::new();
    let mut i: usize = 0;
    proof {
        assert(chars@.skip(0) =~= chars@);
        assert(out@ + unescaped(chars@) =~= unescaped(chars@));
    }
    while i < chars.len()
        invariant
            i <= chars.len(),
            out@ + unescaped(chars@.skip(i as int)) == unescaped(chars@),
        decreases chars.len() - i,
    {
        let ghost rest = chars@.skip(i as int);
        let ghost sofar = out@;
        let c: char = chars[i];
        proof {
            assert(rest.skip(1) =~= chars@.skip(i + 1));
            assert forall|x: char, s: Seq<char>| #![trigger sofar.push(x) + s]
                sofar + (seq![x] + s) == sofar.push(x) + s by {
                assert(sofar + (seq![x] + s) =~= sofar.push(x) + s);
            }
        }
        if c != '\\' {
            out.push(c);
            i += 1;
        } else if i + 1 == chars.len() {
            assert(out@ + Seq::<char>::empty() =~= out@);
            return out;
        } else {
            let d: char = chars[i + 1];
            proof {
                assert(rest[1] == d);
                assert(rest.skip(2) =~= chars@.skip(i + 2));
            }
            out.push(
                if d == 'n' {
                    '\n'
                } else if d == 'r' {
                    '\r'
                } else if d == 't' {
                    '\t'
                } else {
                    d
                },
            );
            i += 2;
        }
    }
    proof {
        assert(chars@.skip(i as int) =~= Seq::empty());
        assert(out@ + Seq::<char>::empty() =~= out@);
    }
    out
}

/// The number that a value writes, or `other` where it writes none.
pub open spec fn number_or(s: Seq<char>, other: usize) -> usize {
    match fixtures::setting_number(s) {
        Some(n) => n,
        None => other,
    }
}

fn number(chars: &Vec<char>, other: usize) -> (r: usize)
    ensures
        r == number_or(chars@, other),
{
    match strings::parse_number(chars.as_slice(), usize::MAX) {
        Some(n) => n,
        None => other,
    }
}

/// `settings` once `word` has been read.
pub open spec fn setting_read(settings: Settings, word: Seq<char>) -> Settings {
    match split::found(word, seq!['='], 0) {
        None => settings,
        Some(at) => {
            let name = word.take(at);
            let values = split::pieces(word.skip(at + 1), seq![','], 0);
            if name == "viewport"@ && values.len() == 2 {
                Settings {
                    viewport: Some(
                        Viewport {
                            top_row: number_or(values[0], 0),
                            height: number_or(values[1], 0),
                        },
                    ),
                    ..settings
                }
            } else if name == "indent"@ && values.len() == 3 {
                Settings {
                    indent: Some(
                        Indent {
                            shift_width: number_or(values[0], 4),
                            tab_width: number_or(values[1], 8),
                            use_tabs: values[2] == "tabs"@,
                        },
                    ),
                    ..settings
                }
            } else {
                settings
            }
        },
    }
}

/// `settings` once the words from the `i`th on have been read.
pub open spec fn settings_from(settings: Settings, words: Seq<Seq<char>>, i: int) -> Settings
    decreases words.len() - i,
{
    if i >= words.len() {
        settings
    } else {
        settings_from(setting_read(settings, words[i]), words, i + 1)
    }
}

fn read_setting(settings: Settings, word: &Vec<char>) -> (r: Settings)
    ensures
        r == setting_read(settings, word@),
{
    let equals: Vec<char> = vec!['='];
    let comma: Vec<char> = vec![','];
    proof {
        assert(equals@ =~= seq!['=']);
        assert(comma@ =~= seq![',']);
        split::lemma_found(word@, seq!['='], 0);
    }
    match split::find(word.as_slice(), equals.as_slice(), 0) {
        None => settings,
        Some(at) => {
            assert(split::stands(word@, equals@, at as int) && equals@.len() == 1);
            assert(at + 1 <= word@.len() == word.len());
            let name: Vec<char> = split::copied(word.as_slice(), 0, at);
            let list: Vec<char> = split::copied(word.as_slice(), at + 1, word.len());
            proof {
                assert(name@ =~= word@.take(at as int));
                assert(list@ =~= word@.skip(at + 1));
            }
            let values: Vec<Vec<char>> = split::split(list.as_slice(), comma.as_slice());
            let ghost all = split::texts(values@);
            assert(values.len() == all.len());
            if strings::spell(name.as_slice(), "viewport") && values.len() == 2 {
                assert(all[0] == values[0]@ && all[1] == values[1]@);
                let viewport: Viewport = Viewport {
                    top_row: number(&values[0], 0),
                    height: number(&values[1], 0),
                };
                Settings { viewport: Some(viewport), indent: settings.indent }
            } else if strings::spell(name.as_slice(), "indent") && values.len() == 3 {
                assert(all[0] == values[0]@ && all[1] == values[1]@ && all[2] == values[2]@);
                let indent: Indent = Indent {
                    shift_width: number(&values[0], 4),
                    tab_width: number(&values[1], 8),
                    use_tabs: strings::spell(values[2].as_slice(), "tabs"),
                };
                Settings { viewport: settings.viewport, indent: Some(indent) }
            } else {
                settings
            }
        },
    }
}

/// The settings `before` once the words of `value` have been read.
pub fn settings(value: &[char], before: Settings) -> (r: Settings)
    ensures
        r == settings_from(before, split::words_from(value@, 0), 0),
{
    let words: Vec<Vec<char>> = split::words(value);
    let ghost all = split::texts(words@);
    let mut out: Settings = before;
    let mut i: usize = 0;
    while i < words.len()
        invariant
            i <= words.len(),
            all == split::texts(words@),
            settings_from(out, all, i as int) == settings_from(before, all, 0),
        decreases words.len() - i,
    {
        assert(all[i as int] == words[i as int]@);
        out = read_setting(out, &words[i]);
        i += 1;
    }
    out
}

/// `case` once `line` has been read.
pub open spec fn line_read(case: CaseState, line: Seq<char>) -> CaseState {
    match split::after(line, "text"@) {
        Some(value) => CaseState {
            text: match split::after(value, " "@) {
                Some(rest) => unescaped(rest),
                None => Seq::empty(),
            },
            ..case
        },
        None => match split::after(line, "keys "@) {
            Some(value) => CaseState { keys: value, ..case },
            None => match split::after(line, "with "@) {
                Some(value) => CaseState {
                    settings: settings_from(case.settings, split::words_from(value, 0), 0),
                    ..case
                },
                None => case,
            },
        },
    }
}

/// `case` once the lines from the `i`th on have been read.
pub open spec fn lines_read(case: CaseState, lines: Seq<Seq<char>>, i: int) -> CaseState
    decreases lines.len() - i,
{
    if i >= lines.len() {
        case
    } else {
        lines_read(line_read(case, lines[i]), lines, i + 1)
    }
}

/// The case that the telling lines of a chunk say: none where the first does not name
/// it.
pub open spec fn case_of(lines: Seq<Seq<char>>) -> Option<CaseState> {
    if lines.len() == 0 {
        None
    } else {
        match split::after(lines[0], "case "@) {
            Some(name) => Some(
                lines_read(
                    CaseState {
                        name,
                        text: Seq::empty(),
                        keys: Seq::empty(),
                        settings: Settings::unset(),
                    },
                    lines,
                    1,
                ),
            ),
            None => None,
        }
    }
}

/// The cases of the first `n` chunks.
pub open spec fn cases_upto(chunks: Seq<Seq<char>>, n: int) -> Seq<CaseState>
    decreases n,
{
    if n <= 0 {
        Seq::empty()
    } else {
        let before = cases_upto(chunks, n - 1);
        match case_of(split::telling_lines(chunks[n - 1])) {
            Some(case) => before.push(case),
            None => before,
        }
    }
}

/// The cases that a fixture holds, whatever else it holds.
pub open spec fn cases_of(s: Seq<char>) -> Seq<CaseState> {
    let chunks = split::pieces(s, "\n---\n"@, 0);
    cases_upto(chunks, chunks.len() as int)
}

fn read_line(case: Case, line: &Vec<char>) -> (r: Case)
    ensures
        r@ == line_read(case@, line@),
{
    if let Some(value) = split::strip(line.as_slice(), "text") {
        let text: String = match split::strip(value.as_slice(), " ") {
            Some(rest) => unescape(rest.as_slice()),
            None => String::new(),
        };
        return Case { name: case.name, text, keys: case.keys, settings: case.settings };
    }
    if let Some(value) = split::strip(line.as_slice(), "keys ") {
        let keys: String = strings::from_chars(value.as_slice());
        return Case { name: case.name, text: case.text, keys, settings: case.settings };
    }
    if let Some(value) = split::strip(line.as_slice(), "with ") {
        let set: Settings = settings(value.as_slice(), case.settings);
        return Case { name: case.name, text: case.text, keys: case.keys, settings: set };
    }
    case
}

fn read_case(lines: &Vec<Vec<char>>) -> (r: Option<Case>)
    ensures
        match r {
            Some(case) => case_of(split::texts(lines@)) == Some(case@),
            None => case_of(split::texts(lines@)) is None,
        },
{
    let ghost all = split::texts(lines@);
    assert(all.len() == lines.len());
    if lines.len() == 0 {
        return None;
    }
    assert(all[0] == lines[0]@);
    let name: String = match split::strip(lines[0].as_slice(), "case ") {
        Some(name) => strings::from_chars(name.as_slice()),
        None => {
            return None;
        },
    };
    let mut case: Case = Case {
        name,
        text: String::new(),
        keys: String::new(),
        settings: Settings::default(),
    };
    let ghost first = case@;
    proof {
        assert(first.text =~= Seq::empty());
        assert(first.keys =~= Seq::empty());
    }
    let mut i: usize = 1;
    while i < lines.len()
        invariant
            1 <= i <= lines.len(),
            all == split::texts(lines@),
            lines_read(case@, all, i as int) == lines_read(first, all, 1),
        decreases lines.len() - i,
    {
        assert(all[i as int] == lines[i as int]@);
        case = read_line(case, &lines[i]);
        i += 1;
    }
    Some(case)
}

/// The cases that `fixture` holds, whatever else it holds.
pub fn parse(fixture: &str) -> (r: Vec<Case>)
    ensures
        fixtures::views(r@) == cases_of(fixture@),
{
    let chars: Vec<char> = strings::chars_of(fixture);
    let rule: Vec<char> = strings::chars_of("\n---\n");
    proof {
        reveal_strlit("\n---\n");
    }
    let chunks: Vec<Vec<char>> = split::split(chars.as_slice(), rule.as_slice());
    let ghost all = split::texts(chunks@);
    let mut cases: Vec<Case> = Vec::new();
    let mut i: usize = 0;
    assert(fixtures::views(cases@) =~= Seq::empty());
    while i < chunks.len()
        invariant
            i <= chunks.len(),
            all == split::texts(chunks@),
            fixtures::views(cases@) == cases_upto(all, i as int),
        decreases chunks.len() - i,
    {
        assert(all[i as int] == chunks[i as int]@);
        let lines: Vec<Vec<char>> = split::lines(chunks[i].as_slice());
        if let Some(case) = read_case(&lines) {
            proof {
                assert(fixtures::views(cases@.push(case)) =~= fixtures::views(cases@).push(case@));
            }
            cases.push(case);
        }
        i += 1;
    }
    cases
}

// ---------------------------------------------------------------------------
// leniency
// ---------------------------------------------------------------------------

/// Where the strict reading of escapes finds nothing wrong, this one agrees with it.
pub proof fn agrees_on_escapes(s: Seq<char>)
    ensures
        match fixtures::unescaped(s) {
            Ok(text) => unescaped(s) == text,
            Err(_) => true,
        },
    decreases s.len(),
{
    if s.len() > 0 {
        if s[0] != '\\' {
            agrees_on_escapes(s.skip(1));
        } else if s.len() > 1 {
            agrees_on_escapes(s.skip(2));
        }
    }
}

proof fn lemma_settings(before: Settings, words: Seq<Seq<char>>, i: int)
    ensures
        match fixtures::settings_from(before, words, i) {
            Ok(after) => settings_from(before, words, i) == after,
            Err(_) => true,
        },
    decreases words.len() - i,
{
    if i < words.len() {
        if let Ok(next) = fixtures::setting_read(before, words[i]) {
            reveal_strlit("tabs");
            reveal_strlit("spaces");
            assert("tabs"@.len() != "spaces"@.len());
            assert(setting_read(before, words[i]) == next);
            lemma_settings(next, words, i + 1);
        }
    }
}

/// Whether `case`, called `name`, holds what `draft` does, and nothing where it holds
/// nothing.
spec fn follows(case: CaseState, draft: DraftState, name: Seq<char>) -> bool {
    &&& case.name == name
    &&& case.text == match draft.text {
        Some(text) => text,
        None => Seq::empty(),
    }
    &&& case.keys == match draft.keys {
        Some(keys) => keys,
        None => Seq::empty(),
    }
    &&& case.settings == match draft.settings {
        Some(settings) => settings,
        None => Settings::unset(),
    }
}

proof fn lemma_line(case: CaseState, draft: DraftState, name: Seq<char>, line: Seq<char>)
    requires
        follows(case, draft, name),
    ensures
        match draft.read(line) {
            Ok(next) => follows(line_read(case, line), next, name),
            Err(_) => true,
        },
{
    if let Some(value) = split::after(line, "text"@) {
        reveal_strlit(" ");
        if value.len() == 0 {
            assert(split::after(value, " "@) is None);
            assert(fixtures::unescaped(value) == Ok::<Seq<char>, Flaw>(Seq::empty()));
        } else if value[0] == ' ' {
            assert(value.subrange(0, 1) =~= " "@);
            agrees_on_escapes(value.skip(1));
        }
    } else if split::after(line, "keys "@) is None {
        if let Some(value) = split::after(line, "with "@) {
            lemma_settings(Settings::unset(), split::words_from(value, 0), 0);
        }
    }
}

proof fn lemma_lines(
    case: CaseState,
    draft: DraftState,
    name: Seq<char>,
    lines: Seq<Seq<char>>,
    i: int,
)
    requires
        follows(case, draft, name),
    ensures
        match draft.read_from(lines, i) {
            Ok(after) => follows(lines_read(case, lines, i), after, name),
            Err(_) => true,
        },
    decreases lines.len() - i,
{
    if i < lines.len() {
        if let Ok(next) = draft.read(lines[i]) {
            lemma_line(case, draft, name, lines[i]);
            lemma_lines(line_read(case, lines[i]), next, name, lines, i + 1);
        }
    }
}

proof fn lemma_case(lines: Seq<Seq<char>>)
    requires
        lines.len() > 0,
    ensures
        match fixtures::case_of(lines) {
            Ok(case) => case_of(lines) == Some(case),
            Err(_) => true,
        },
{
    if let Some(name) = split::after(lines[0], "case "@) {
        let blank = CaseState {
            name,
            text: Seq::empty(),
            keys: Seq::empty(),
            settings: Settings::unset(),
        };
        lemma_lines(blank, DraftState::blank(), name, lines, 1);
    }
}

proof fn lemma_cases(chunks: Seq<Seq<char>>, i: int)
    requires
        0 <= i <= chunks.len(),
    ensures
        match fixtures::cases_from(cases_upto(chunks, i), chunks, i) {
            Ok(cases) => cases_upto(chunks, chunks.len() as int) == cases,
            Err(_) => true,
        },
    decreases chunks.len() - i,
{
    if i < chunks.len() {
        let lines = split::telling_lines(chunks[i]);
        if lines.len() > 0 {
            lemma_case(lines);
        }
        lemma_cases(chunks, i + 1);
    }
}

/// A fixture with nothing wrong in it reads the same as it does strictly.
pub proof fn agrees_with_the_strict_reading(s: Seq<char>)
    ensures
        match fixtures::cases_of(s) {
            Ok(cases) => cases_of(s) == cases,
            Err(_) => true,
        },
{
    lemma_cases(split::pieces(s, "\n---\n"@, 0), 0);
}

} // verus!
