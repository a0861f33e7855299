//! What the fixture grammar promises: a case that was written reads back.

use vstd::prelude::*;

use crate::fixtures;
use crate::fixtures::{CaseState, DraftState, Flaw, Settings};
use crate::host::{Indent, Viewport};
use crate::split;
use crate::strings;
use crate::unicode;

verus! {

/// Whether `c` occurs nowhere in `s`.
pub open spec fn lacks(s: Seq<char>, c: char) -> bool {
    forall|i: int| 0 <= i < s.len() ==> #[trigger] s[i] != c
}

// ---------------------------------------------------------------------------
// pieces
// ---------------------------------------------------------------------------

proof fn lemma_found_skip(s: Seq<char>, part: Seq<char>, d: int, i: int)
    requires
        0 <= d <= s.len(),
        0 <= i,
    ensures
        split::found(s.skip(d), part, i) == match split::found(s, part, d + i) {
            Some(j) => Some(j - d),
            None => None,
        },
    decreases s.len() + 1 - d - i,
{
    let t = s.skip(d);
    if i <= t.len() {
        if i + part.len() <= t.len() {
            assert(t.subrange(i, i + part.len()) =~= s.subrange(d + i, d + i + part.len()));
        }
        assert(split::stands(t, part, i) == split::stands(s, part, d + i));
        lemma_found_skip(s, part, d, i + 1);
    }
}

proof fn lemma_pieces_skip(s: Seq<char>, part: Seq<char>, d: int, i: int)
    requires
        0 <= d,
        0 <= i,
        d + i <= s.len(),
    ensures
        split::pieces(s.skip(d), part, i) == split::pieces(s, part, d + i),
    decreases s.len() - d - i,
{
    let t = s.skip(d);
    lemma_found_skip(s, part, d, i);
    split::lemma_found(s, part, d + i);
    split::lemma_found(t, part, i);
    match split::found(t, part, i) {
        Some(j) => {
            if part.len() > 0 {
                assert(t.subrange(i, j) =~= s.subrange(d + i, d + j));
                lemma_pieces_skip(s, part, d, j + part.len());
            } else {
                assert(t.skip(i) =~= s.skip(d + i));
            }
        },
        None => {
            assert(t.skip(i) =~= s.skip(d + i));
        },
    }
}

/// A piece without the separator, before a separator.
proof fn lemma_piece(a: Seq<char>, c: char, rest: Seq<char>)
    requires
        lacks(a, c),
    ensures
        split::pieces(a.push(c) + rest, seq![c], 0) == seq![a] + split::pieces(rest, seq![c], 0),
{
    let s = a.push(c) + rest;
    let n = a.len() as int;
    assert(s.subrange(n, n + 1) =~= seq![c]);
    assert forall|k: int| 0 <= k < n implies !#[trigger] split::stands(s, seq![c], k) by {
        assert(s.subrange(k, k + 1)[0] == a[k]);
        assert(seq![c][0] == c);
    }
    split::lemma_found_at(s, seq![c], 0, n);
    assert(s.subrange(0, n) =~= a);
    assert(s.skip(n + 1) =~= rest);
    lemma_pieces_skip(s, seq![c], n + 1, 0);
}

/// A piece without the separator, at the end.
proof fn lemma_last_piece(a: Seq<char>, c: char)
    requires
        lacks(a, c),
    ensures
        split::pieces(a, seq![c], 0) == seq![a],
{
    assert forall|k: int| 0 <= k implies !#[trigger] split::stands(a, seq![c], k) by {
        if k + 1 <= a.len() {
            assert(a.subrange(k, k + 1)[0] == a[k]);
            assert(seq![c][0] == c);
        }
    }
    split::lemma_not_found(a, seq![c], 0);
    assert(a.skip(0) =~= a);
}

// ---------------------------------------------------------------------------
// settings
// ---------------------------------------------------------------------------

/// Whether every character of `s` is printable ASCII and no space.
pub open spec fn solid(s: Seq<char>) -> bool {
    forall|i: int| 0 <= i < s.len() ==> '!' <= #[trigger] s[i] && s[i] <= '~'
}

proof fn lemma_decimal_solid(n: int)
    requires
        0 <= n,
    ensures
        strings::decimal(n).len() > 0,
        solid(strings::decimal(n)),
        lacks(strings::decimal(n), ','),
        lacks(strings::decimal(n), '='),
{
    strings::lemma_decimal_reads_back(n);
    let s = strings::decimal(n);
    assert forall|i: int| 0 <= i < s.len() implies strings::is_digit(#[trigger] s[i]) by {}
}

proof fn lemma_number(n: usize)
    ensures
        fixtures::setting_number(strings::decimal(n as int)) == Some(n),
{
    strings::lemma_decimal_parses(n as int, usize::MAX as int);
}

/// The values `a` and `b`, and after them `rest`, taken apart.
proof fn lemma_values(a: Seq<char>, rest: Seq<char>)
    requires
        lacks(a, ','),
    ensures
        split::pieces(a + ","@ + rest, seq![','], 0) == seq![a] + split::pieces(
            rest,
            seq![','],
            0,
        ),
{
    reveal_strlit(",");
    assert(a + ","@ + rest =~= a.push(',') + rest);
    lemma_piece(a, ',', rest);
}

/// A word's name, before its `=`, and its values, after it.
proof fn lemma_word(name: Seq<char>, list: Seq<char>)
    requires
        lacks(name, '='),
    ensures
        ({
            let word = name.push('=') + list;
            &&& split::found(word, seq!['='], 0) == Some(name.len() as int)
            &&& word.take(name.len() as int) == name
            &&& word.skip(name.len() as int + 1) == list
        }),
{
    let word = name.push('=') + list;
    let n = name.len() as int;
    assert(word.subrange(n, n + 1) =~= seq!['=']);
    assert forall|k: int| 0 <= k < n implies !#[trigger] split::stands(word, seq!['='], k) by {
        assert(word.subrange(k, k + 1)[0] == name[k]);
        assert(seq!['='][0] == '=');
    }
    split::lemma_found_at(word, seq!['='], 0, n);
    assert(word.take(n) =~= name);
    assert(word.skip(n + 1) =~= list);
}

proof fn lemma_viewport_word(settings: Settings, viewport: Viewport)
    requires
        settings.viewport is None,
    ensures
        fixtures::setting_read(settings, fixtures::viewport_word(viewport)) == Ok::<
            Settings,
            Flaw,
        >(Settings { viewport: Some(viewport), ..settings }),
        solid(fixtures::viewport_word(viewport)),
        fixtures::viewport_word(viewport).len() > 0,
{
    reveal_strlit("viewport=");
    reveal_strlit("viewport");
    reveal_strlit(",");
    reveal_strlit("indent");
    let a = strings::decimal(viewport.top_row as int);
    let b = strings::decimal(viewport.height as int);
    lemma_decimal_solid(viewport.top_row as int);
    lemma_decimal_solid(viewport.height as int);
    let list = a + ","@ + b;
    let word = fixtures::viewport_word(viewport);
    assert(word =~= "viewport"@.push('=') + list);
    lemma_word("viewport"@, list);
    lemma_values(a, b);
    lemma_last_piece(b, ',');
    let values = split::pieces(list, seq![','], 0);
    assert(values =~= seq![a, b]);
    lemma_number(viewport.top_row);
    lemma_number(viewport.height);
    assert(solid(word)) by {
        assert forall|i: int| 0 <= i < word.len() implies '!' <= #[trigger] word[i] && word[i]
            <= '~' by {
            if i >= 9 {
                if i < 9 + a.len() {
                    assert(word[i] == a[i - 9]);
                } else if i > 9 + a.len() {
                    assert(word[i] == b[i - 10 - a.len()]);
                }
            }
        }
    }
}

proof fn lemma_indent_word(settings: Settings, indent: Indent)
    requires
        settings.indent is None,
    ensures
        fixtures::setting_read(settings, fixtures::indent_word(indent)) == Ok::<Settings, Flaw>(
            Settings { indent: Some(indent), ..settings },
        ),
        solid(fixtures::indent_word(indent)),
        fixtures::indent_word(indent).len() > 0,
{
    reveal_strlit("indent=");
    reveal_strlit("indent");
    reveal_strlit("viewport");
    reveal_strlit(",");
    reveal_strlit("tabs");
    reveal_strlit("spaces");
    let a = strings::decimal(indent.shift_width as int);
    let b = strings::decimal(indent.tab_width as int);
    let kind = if indent.use_tabs {
        "tabs"@
    } else {
        "spaces"@
    };
    lemma_decimal_solid(indent.shift_width as int);
    lemma_decimal_solid(indent.tab_width as int);
    let list = a + ","@ + (b + ","@ + kind);
    let word = fixtures::indent_word(indent);
    assert(word =~= "indent"@.push('=') + list);
    lemma_word("indent"@, list);
    lemma_values(a, b + ","@ + kind);
    lemma_values(b, kind);
    assert(lacks(kind, ','));
    lemma_last_piece(kind, ',');
    let values = split::pieces(list, seq![','], 0);
    assert(values =~= seq![a, b, kind]);
    lemma_number(indent.shift_width);
    lemma_number(indent.tab_width);
    assert("tabs"@ != "spaces"@) by {
        assert("tabs"@.len() != "spaces"@.len());
    }
    assert("indent"@ != "viewport"@) by {
        assert("indent"@.len() != "viewport"@.len());
    }
    assert(solid(kind)) by {
        assert forall|i: int| 0 <= i < kind.len() implies '!' <= #[trigger] kind[i] && kind[i]
            <= '~' by {}
    }
    assert(solid(word)) by {
        assert forall|i: int| 0 <= i < word.len() implies '!' <= #[trigger] word[i] && word[i]
            <= '~' by {
            if i >= 7 {
                if i < 7 + a.len() {
                    assert(word[i] == a[i - 7]);
                } else if 7 + a.len() < i && i < 8 + a.len() + b.len() {
                    assert(word[i] == b[i - 8 - a.len()]);
                } else if i > 8 + a.len() + b.len() {
                    assert(word[i] == kind[i - 9 - a.len() - b.len()]);
                }
            }
        }
    }
}

proof fn lemma_word_end(s: Seq<char>, i: int, end: int)
    requires
        0 <= i <= end <= s.len(),
        forall|k: int| i <= k < end ==> !unicode::is_space(#[trigger] s[k]),
        end < s.len() ==> unicode::is_space(s[end]),
    ensures
        split::word_end(s, i) == end,
    decreases end - i,
{
    if i < end {
        lemma_word_end(s, i + 1, end);
    }
}

/// One solid word, on its own.
proof fn lemma_one_word(w: Seq<char>)
    requires
        solid(w),
        w.len() > 0,
    ensures
        split::words_from(w, 0) == seq![w],
{
    lemma_word_end(w, 0, w.len() as int);
    assert(w.subrange(0, w.len() as int) =~= w);
    assert('!' <= w[0]);
    assert(split::words_from(w, w.len() as int) =~= Seq::empty());
    assert(seq![w] + Seq::<Seq<char>>::empty() =~= seq![w]);
}

/// Two solid words, with a space between them.
proof fn lemma_two_words(w: Seq<char>, v: Seq<char>)
    requires
        solid(w),
        solid(v),
        w.len() > 0,
        v.len() > 0,
    ensures
        split::words_from(w + " "@ + v, 0) == seq![w, v],
{
    reveal_strlit(" ");
    let s = w + " "@ + v;
    let n = w.len() as int;
    assert forall|k: int| 0 <= k < n implies !unicode::is_space(#[trigger] s[k]) by {
        assert(s[k] == w[k]);
    }
    assert(s[n] == ' ');
    lemma_word_end(s, 0, n);
    assert(s.subrange(0, n) =~= w);
    assert(s[0] == w[0]);
    assert forall|k: int| n + 1 <= k < s.len() implies !unicode::is_space(#[trigger] s[k]) by {
        assert(s[k] == v[k - n - 1]);
    }
    let end = s.len() as int;
    lemma_word_end(s, n + 1, end);
    assert(s.subrange(n + 1, end) =~= v);
    assert(s[n + 1] == v[0]);
    assert(split::words_from(s, end) =~= Seq::empty());
    assert(split::words_from(s, n + 1) =~= seq![v]);
    assert(split::words_from(s, n) =~= seq![v]);
    assert(seq![w] + seq![v] =~= seq![w, v]);
}

/// Settings that were written read back.
proof fn lemma_settings(settings: Settings, value: Seq<char>)
    requires
        fixtures::with_value(settings) == Some(value),
    ensures
        fixtures::settings_of(value) == Ok::<Settings, Flaw>(settings),
        value.len() > 0,
        lacks(value, '\n'),
        value.last() != '\r',
{
    reveal_strlit(" ");
    reveal_with_fuel(fixtures::settings_from, 3);
    let unset = Settings::unset();
    match (settings.viewport, settings.indent) {
        (None, None) => {},
        (Some(viewport), None) => {
            lemma_viewport_word(unset, viewport);
            lemma_one_word(value);
        },
        (None, Some(indent)) => {
            lemma_indent_word(unset, indent);
            lemma_one_word(value);
        },
        (Some(viewport), Some(indent)) => {
            let w = fixtures::viewport_word(viewport);
            let v = fixtures::indent_word(indent);
            lemma_viewport_word(unset, viewport);
            lemma_indent_word(Settings { viewport: Some(viewport), ..unset }, indent);
            lemma_two_words(w, v);
            assert forall|i: int| 0 <= i < value.len() implies #[trigger] value[i] >= ' ' by {
                if i < w.len() {
                    assert(value[i] == w[i]);
                } else if i > w.len() {
                    assert(value[i] == v[i - w.len() - 1]);
                }
            }
        },
    }
}

// ---------------------------------------------------------------------------
// cases
// ---------------------------------------------------------------------------

/// An escaped text holds no line ending.
proof fn lemma_escaped(s: Seq<char>)
    ensures
        lacks(fixtures::escaped(s), '\n'),
        lacks(fixtures::escaped(s), '\r'),
    decreases s.len(),
{
    if s.len() > 0 {
        lemma_escaped(s.drop_last());
        let a = fixtures::escaped(s.drop_last());
        let b = fixtures::escaped_char(s.last());
        let t = a + b;
        assert forall|i: int| 0 <= i < t.len() implies #[trigger] t[i] != '\n' && t[i]
            != '\r' by {
            if i < a.len() {
                assert(t[i] == a[i]);
            } else {
                assert(t[i] == b[i - a.len()]);
            }
        }
    }
}

/// Whether no newline of `s` is followed by a dash.
pub open spec fn calm(s: Seq<char>) -> bool {
    forall|i: int| 0 <= i < s.len() - 1 && #[trigger] s[i] == '\n' ==> s[i + 1] != '-'
}

proof fn lemma_calm_line(a: Seq<char>, rest: Seq<char>)
    requires
        lacks(a, '\n'),
        calm(rest),
        rest.len() == 0 || rest[0] != '-',
    ensures
        calm(a.push('\n') + rest),
{
    let s = a.push('\n') + rest;
    assert forall|i: int| 0 <= i < s.len() - 1 && #[trigger] s[i] == '\n' implies s[i + 1]
        != '-' by {
        if i < a.len() {
            assert(s[i] == a[i]);
        } else if i == a.len() {
            assert(s[i + 1] == rest[0]);
        } else {
            let j = i - a.len() - 1;
            assert(s[i] == rest[j]);
            assert(s[i + 1] == rest[j + 1]);
        }
    }
}

/// A calm text is one chunk.
proof fn lemma_one_chunk(s: Seq<char>)
    requires
        calm(s),
    ensures
        split::pieces(s, "\n---\n"@, 0) == seq![s],
{
    reveal_strlit("\n---\n");
    let rule = "\n---\n"@;
    assert forall|k: int| 0 <= k implies !#[trigger] split::stands(s, rule, k) by {
        if split::stands(s, rule, k) {
            let part = s.subrange(k, k + rule.len());
            assert(part[0] == s[k] && part[1] == s[k + 1]);
            assert(rule[0] == '\n' && rule[1] == '-');
        }
    }
    split::lemma_not_found(s, rule, 0);
    assert(s.skip(0) =~= s);
}

/// A line that begins with `prefix`, which no other line of a case begins with.
proof fn lemma_after(prefix: Seq<char>, value: Seq<char>)
    ensures
        split::after(prefix + value, prefix) == Some(value),
{
    let s = prefix + value;
    assert(s.subrange(0, prefix.len() as int) =~= prefix);
    assert(s.skip(prefix.len() as int) =~= value);
}

proof fn lemma_not_after(s: Seq<char>, prefix: Seq<char>)
    requires
        s.len() > 0,
        prefix.len() > 0,
        s[0] != prefix[0],
    ensures
        split::after(s, prefix) is None,
{
    if split::stands(s, prefix, 0) {
        assert(s.subrange(0, prefix.len() as int)[0] == s[0]);
    }
}

/// The lines of a written case.
pub open spec fn lines_of(case: CaseState) -> Seq<Seq<char>> {
    let lines = seq!["case "@ + case.name, "text "@ + fixtures::escaped(case.text), "keys "@
        + case.keys];
    match fixtures::with_value(case.settings) {
        Some(value) => lines.push("with "@ + value),
        None => lines,
    }
}

/// The lines from the `i`th on, each ended by a newline.
pub open spec fn ended(lines: Seq<Seq<char>>, i: int) -> Seq<char>
    decreases lines.len() - i,
{
    if i >= lines.len() {
        Seq::empty()
    } else {
        lines[i].push('\n') + ended(lines, i + 1)
    }
}

/// Whether `line` is one a case can hold: it says something, and its end is its own.
pub open spec fn proper(line: Seq<char>) -> bool {
    line.len() > 0 && 'a' <= line[0] && line[0] <= 'z' && lacks(line, '\n') && line.last() != '\r'
}

proof fn lemma_ended(lines: Seq<Seq<char>>, i: int)
    requires
        0 <= i <= lines.len(),
        forall|k: int| 0 <= k < lines.len() ==> proper(#[trigger] lines[k]),
    ensures
        calm(ended(lines, i)),
        ended(lines, i).len() == 0 || ended(lines, i)[0] != '-',
        split::pieces(ended(lines, i), seq!['\n'], 0) == lines.skip(i).push(Seq::empty()),
    decreases lines.len() - i,
{
    let s = ended(lines, i);
    if i < lines.len() {
        let rest = ended(lines, i + 1);
        lemma_ended(lines, i + 1);
        assert(proper(lines[i]));
        lemma_calm_line(lines[i], rest);
        lemma_piece(lines[i], '\n', rest);
        assert(s[0] == lines[i][0]);
        assert(seq![lines[i]] + lines.skip(i + 1).push(Seq::empty()) =~= lines.skip(i).push(
            Seq::empty(),
        ));
    } else {
        lemma_last_piece(s, '\n');
        assert(lines.skip(i).push(Seq::empty()) =~= seq![s]);
    }
}

proof fn lemma_telling(lines: Seq<Seq<char>>, cut: Seq<Seq<char>>, i: int)
    requires
        0 <= i <= lines.len(),
        forall|k: int| 0 <= k < lines.len() ==> proper(#[trigger] lines[k]),
        cut == lines.push(Seq::empty()),
    ensures
        split::telling_from(cut, i) == lines.skip(i),
    decreases lines.len() - i,
{
    if i < lines.len() {
        lemma_telling(lines, cut, i + 1);
        assert(cut[i] == lines[i]);
        assert(proper(lines[i]));
        assert(seq![lines[i]] + lines.skip(i + 1) =~= lines.skip(i));
    } else {
        assert(cut[i] == Seq::<char>::empty());
        reveal_with_fuel(split::telling_from, 2);
        assert(lines.skip(i) =~= Seq::empty());
    }
}

/// Whether a line can hold the keys of `case` as they are.
pub open spec fn one_line(keys: Seq<char>) -> bool {
    lacks(keys, '\n') && (keys.len() > 0 ==> keys.last() != '\r')
}

proof fn lemma_proper_lines(case: CaseState)
    requires
        fixtures::is_name(case.name),
        one_line(case.keys),
        fixtures::with_value(case.settings) matches Some(value) ==> lacks(value, '\n')
            && value.len() > 0 && value.last() != '\r',
    ensures
        forall|k: int| 0 <= k < lines_of(case).len() ==> proper(#[trigger] lines_of(case)[k]),
        fixtures::formatted(case) == ended(lines_of(case), 0),
{
    reveal_strlit("case ");
    reveal_strlit("text ");
    reveal_strlit("keys ");
    reveal_strlit("with ");
    reveal_strlit("\ntext ");
    reveal_strlit("\nkeys ");
    reveal_strlit("\nwith ");
    reveal_strlit("\n");
    lemma_escaped(case.text);
    let lines = lines_of(case);
    let name = "case "@ + case.name;
    let text = "text "@ + fixtures::escaped(case.text);
    let keys = "keys "@ + case.keys;
    lemma_proper("case "@, case.name);
    lemma_proper("text "@, fixtures::escaped(case.text));
    lemma_proper("keys "@, case.keys);
    assert(lines[0] == name && lines[1] == text && lines[2] == keys);
    assert("\ntext "@ =~= seq!['\n'] + "text "@);
    assert("\nkeys "@ =~= seq!['\n'] + "keys "@);
    assert("\nwith "@ =~= seq!['\n'] + "with "@);
    assert("\n"@ =~= seq!['\n']);
    lemma_joined(name, "text "@, fixtures::escaped(case.text));
    lemma_joined(name.push('\n') + text, "keys "@, case.keys);
    match fixtures::with_value(case.settings) {
        Some(value) => {
            lemma_proper("with "@, value);
            let with = "with "@ + value;
            assert(lines[3] == with);
            lemma_joined((name.push('\n') + text).push('\n') + keys, "with "@, value);
            lemma_four(name, text, keys, with);
            assert(lines =~= seq![name, text, keys, with]);
        },
        None => {
            lemma_three(name, text, keys);
            assert(lines =~= seq![name, text, keys]);
        },
    }
}

proof fn lemma_joined(a: Seq<char>, prefix: Seq<char>, value: Seq<char>)
    ensures
        a + (seq!['\n'] + prefix) + value == a.push('\n') + (prefix + value),
{
    assert(a + (seq!['\n'] + prefix) + value =~= a.push('\n') + (prefix + value));
}

proof fn lemma_three(a: Seq<char>, b: Seq<char>, c: Seq<char>)
    ensures
        ended(seq![a, b, c], 0) == (a.push('\n') + b).push('\n') + c + seq!['\n'],
{
    let lines = seq![a, b, c];
    assert(ended(lines, 3) =~= Seq::empty());
    assert(ended(lines, 2) =~= c.push('\n'));
    assert(ended(lines, 1) =~= b.push('\n') + c.push('\n'));
    assert(ended(lines, 0) =~= (a.push('\n') + b).push('\n') + c + seq!['\n']);
}

proof fn lemma_four(a: Seq<char>, b: Seq<char>, c: Seq<char>, d: Seq<char>)
    ensures
        ended(seq![a, b, c, d], 0) == ((a.push('\n') + b).push('\n') + c).push('\n') + d
            + seq!['\n'],
{
    let lines = seq![a, b, c, d];
    assert(ended(lines, 4) =~= Seq::empty());
    assert(ended(lines, 3) =~= d.push('\n'));
    assert(ended(lines, 2) =~= c.push('\n') + d.push('\n'));
    assert(ended(lines, 1) =~= (b.push('\n') + c).push('\n') + d.push('\n'));
    assert(ended(lines, 0) =~= ((a.push('\n') + b).push('\n') + c).push('\n') + d + seq!['\n']);
}

proof fn lemma_proper(prefix: Seq<char>, value: Seq<char>)
    requires
        prefix.len() == 5,
        'a' <= prefix[0] && prefix[0] <= 'z',
        lacks(prefix, '\n'),
        prefix.last() == ' ',
        lacks(value, '\n'),
        value.len() > 0 ==> value.last() != '\r',
    ensures
        proper(prefix + value),
{
    let s = prefix + value;
    assert forall|i: int| 0 <= i < s.len() implies #[trigger] s[i] != '\n' by {
        if i < 5 {
            assert(s[i] == prefix[i]);
        } else {
            assert(s[i] == value[i - 5]);
        }
    }
    if value.len() > 0 {
        assert(s.last() == value.last());
    } else {
        assert(s.last() == prefix.last());
    }
}

/// A case that was written reads back, and is the only one there, so long as its name
/// is one and its keys fit on a line.
pub proof fn a_written_case_reads_back(case: CaseState)
    requires
        fixtures::is_name(case.name),
        one_line(case.keys),
    ensures
        fixtures::cases_of(fixtures::formatted(case)) == Ok::<Seq<CaseState>, Flaw>(seq![case]),
{
    if let Some(value) = fixtures::with_value(case.settings) {
        lemma_settings(case.settings, value);
    }
    lemma_proper_lines(case);
    let s = fixtures::formatted(case);
    let lines = lines_of(case);
    lemma_ended(lines, 0);
    lemma_one_chunk(s);
    assert(lines.skip(0) =~= lines);
    lemma_telling(lines, lines.push(Seq::empty()), 0);
    assert(split::telling_lines(s) == lines);
    lemma_case(case);
    reveal_with_fuel(fixtures::cases_from, 3);
    assert(Seq::<CaseState>::empty().push(case) =~= seq![case]);
}

proof fn lemma_case(case: CaseState)
    requires
        fixtures::is_name(case.name),
        fixtures::with_value(case.settings) matches Some(value) ==> fixtures::settings_of(value)
            == Ok::<Settings, Flaw>(case.settings),
    ensures
        fixtures::case_of(lines_of(case)) == Ok::<CaseState, Flaw>(case),
{
    reveal_strlit("case ");
    reveal_strlit("text");
    reveal_strlit("text ");
    reveal_strlit("keys ");
    reveal_strlit("with ");
    let lines = lines_of(case);
    lemma_after("case "@, case.name);
    let escaped = fixtures::escaped(case.text);
    let text = seq![' '] + escaped;
    assert("text "@ + escaped =~= "text"@ + text);
    lemma_after("text"@, text);
    assert(text.skip(1) =~= escaped);
    fixtures::escapes_read_back(case.text);
    let blank = DraftState::blank();
    let one = DraftState { text: Some(case.text), ..blank };
    assert(blank.read(lines[1]) == Ok::<DraftState, Flaw>(one));
    let keys = "keys "@ + case.keys;
    lemma_after("keys "@, case.keys);
    lemma_not_after(keys, "text"@);
    let two = DraftState { keys: Some(case.keys), ..one };
    assert(one.read(lines[2]) == Ok::<DraftState, Flaw>(two));
    reveal_with_fuel(DraftState::read_from, 4);
    match fixtures::with_value(case.settings) {
        Some(value) => {
            let with = "with "@ + value;
            lemma_after("with "@, value);
            lemma_not_after(with, "text"@);
            lemma_not_after(with, "keys "@);
            let three = DraftState { settings: Some(case.settings), ..two };
            assert(lines[3] == with);
            assert(two.read(lines[3]) == Ok::<DraftState, Flaw>(three));
        },
        None => {
            assert(case.settings == Settings::unset());
        },
    }
}

} // verus!
