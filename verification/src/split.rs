//! Taking text apart: at separators, into lines, into words.

use vstd::prelude::*;

use crate::strings;
use crate::unicode;

verus! {

/// The texts that `v` holds.
pub open spec fn texts(v: Seq<Vec<char>>) -> Seq<Seq<char>> {
    Seq::new(v.len(), |i: int| v[i]@)
}

proof fn lemma_texts_push(v: Seq<Vec<char>>, x: Vec<char>)
    ensures
        texts(v.push(x)) == texts(v).push(x@),
{
    assert(texts(v.push(x)) =~= texts(v).push(x@));
}

/// Whether `part` stands at `i` in `s`.
pub open spec fn stands(s: Seq<char>, part: Seq<char>, i: int) -> bool {
    0 <= i && i + part.len() <= s.len() && s.subrange(i, i + part.len()) == part
}

/// The first place at or after `i` where `part` stands in `s`.
pub open spec fn found(s: Seq<char>, part: Seq<char>, i: int) -> Option<int>
    decreases s.len() + 1 - i,
{
    if i > s.len() {
        None
    } else if stands(s, part, i) {
        Some(i)
    } else {
        found(s, part, i + 1)
    }
}

/// The pieces of `s` from `i` on, cut where `part` stands, from the left.
pub open spec fn pieces(s: Seq<char>, part: Seq<char>, i: int) -> Seq<Seq<char>>
    decreases s.len() - i,
{
    let at = found(s, part, i);
    if part.len() > 0 && at is Some && i <= at->0 && at->0 + part.len() <= s.len() {
        seq![s.subrange(i, at->0)] + pieces(s, part, at->0 + part.len())
    } else {
        seq![s.skip(i)]
    }
}

/// Where a part is found, it stands, and nowhere before.
pub proof fn lemma_found(s: Seq<char>, part: Seq<char>, i: int)
    requires
        0 <= i,
    ensures
        match found(s, part, i) {
            Some(j) => i <= j && stands(s, part, j) && forall|k: int|
                i <= k < j ==> !#[trigger] stands(s, part, k),
            None => forall|k: int| i <= k ==> !#[trigger] stands(s, part, k),
        },
    decreases s.len() + 1 - i,
{
    if i <= s.len() && !stands(s, part, i) {
        lemma_found(s, part, i + 1);
    }
}

/// A part that stands nowhere before `j`, and stands there, is found there.
pub proof fn lemma_found_at(s: Seq<char>, part: Seq<char>, i: int, j: int)
    requires
        0 <= i <= j,
        stands(s, part, j),
        forall|k: int| i <= k < j ==> !#[trigger] stands(s, part, k),
    ensures
        found(s, part, i) == Some(j),
    decreases j - i,
{
    if i < j {
        lemma_found_at(s, part, i + 1, j);
    }
}

/// A part that stands nowhere is not found.
pub proof fn lemma_not_found(s: Seq<char>, part: Seq<char>, i: int)
    requires
        0 <= i,
        forall|k: int| i <= k ==> !#[trigger] stands(s, part, k),
    ensures
        found(s, part, i) is None,
    decreases s.len() + 1 - i,
{
    if i <= s.len() {
        lemma_not_found(s, part, i + 1);
    }
}

/// A copy of `chars[a..b]`.
pub fn copied(chars: &[char], a: usize, b: usize) -> (r: Vec<char>)
    requires
        a <= b <= chars.len(),
    ensures
        r@ == chars@.subrange(a as int, b as int),
{
    let mut out: Vec<char> = Vec::new();
    let mut i: usize = a;
    while i < b
        invariant
            a <= i <= b <= chars.len(),
            out@ == chars@.subrange(a as int, i as int),
        decreases b - i,
    {
        out.push(chars[i]);
        i += 1;
        proof {
            assert(chars@.subrange(a as int, i as int) =~= chars@.subrange(
                a as int,
                i - 1,
            ).push(chars@[i - 1]));
        }
    }
    out
}

/// Whether `part` stands at `i` in `chars`.
pub fn stands_at(chars: &[char], part: &[char], i: usize) -> (r: bool)
    ensures
        r == stands(chars@, part@, i as int),
{
    if i > chars.len() || chars.len() - i < part.len() {
        return false;
    }
    let mut k: usize = 0;
    while k < part.len()
        invariant
            k <= part.len(),
            i + part.len() <= chars.len(),
            forall|j: int| 0 <= j < k ==> chars[i + j] == part[j],
        decreases part.len() - k,
    {
        if chars[i + k] != part[k] {
            proof {
                assert(chars@.subrange(i as int, i + part.len())[k as int] != part[k as int]);
            }
            return false;
        }
        k += 1;
    }
    assert(chars@.subrange(i as int, i + part.len()) =~= part@);
    true
}

/// The first place at or after `i` where `part` stands in `chars`.
pub fn find(chars: &[char], part: &[char], i: usize) -> (r: Option<usize>)
    ensures
        match r {
            Some(j) => found(chars@, part@, i as int) == Some(j as int),
            None => found(chars@, part@, i as int) is None,
        },
{
    let mut j: usize = i;
    while j <= chars.len() && chars.len() - j >= part.len()
        invariant
            i <= j,
            found(chars@, part@, i as int) == found(chars@, part@, j as int),
        decreases chars.len() - j,
    {
        if stands_at(chars, part, j) {
            return Some(j);
        }
        if j == chars.len() {
            proof {
                reveal_with_fuel(found, 2);
            }
            return None;
        }
        j += 1;
    }
    proof {
        assert forall|k: int| j <= k implies !#[trigger] stands(chars@, part@, k) by {}
        lemma_not_found(chars@, part@, j as int);
    }
    None
}

/// The pieces of `chars`, cut where `part` stands, from the left.
pub fn split(chars: &[char], part: &[char]) -> (r: Vec<Vec<char>>)
    requires
        part.len() > 0,
    ensures
        texts(r@) == pieces(chars@, part@, 0),
{
    let mut out: Vec<Vec<char>> = Vec::new();
    let mut start: usize = 0;
    proof {
        assert(texts(out@) + pieces(chars@, part@, 0) =~= pieces(chars@, part@, 0));
    }
    loop
        invariant
            part.len() > 0,
            start <= chars.len(),
            texts(out@) + pieces(chars@, part@, start as int) == pieces(chars@, part@, 0),
        decreases chars.len() - start,
    {
        proof {
            lemma_found(chars@, part@, start as int);
        }
        let ghost before = texts(out@);
        match find(chars, part, start) {
            Some(at) => {
                let piece: Vec<char> = copied(chars, start, at);
                proof {
                    lemma_texts_push(out@, piece);
                    assert(before + (seq![piece@] + pieces(chars@, part@, at + part.len()))
                        =~= before.push(piece@) + pieces(chars@, part@, at + part.len()));
                }
                out.push(piece);
                start = at + part.len();
            },
            None => {
                let piece: Vec<char> = copied(chars, start, chars.len());
                proof {
                    lemma_texts_push(out@, piece);
                    assert(piece@ =~= chars@.skip(start as int));
                    assert(before + seq![piece@] =~= before.push(piece@));
                }
                out.push(piece);
                return out;
            },
        }
    }
}

// ---------------------------------------------------------------------------
// lines
// ---------------------------------------------------------------------------

/// The `i`th of the pieces that newlines cut, without the carriage return that came
/// before its newline.
pub open spec fn line(cut: Seq<Seq<char>>, i: int) -> Seq<char> {
    let piece = cut[i];
    if i < cut.len() - 1 && piece.len() > 0 && piece.last() == '\r' {
        piece.drop_last()
    } else {
        piece
    }
}

/// Whether a line says anything: it is not empty, nor a comment.
pub open spec fn telling(line: Seq<char>) -> bool {
    line.len() > 0 && line[0] != '#'
}

/// The telling lines among the pieces from the `i`th on.
pub open spec fn telling_from(cut: Seq<Seq<char>>, i: int) -> Seq<Seq<char>>
    decreases cut.len() - i,
{
    if i >= cut.len() {
        Seq::empty()
    } else if telling(line(cut, i)) {
        seq![line(cut, i)] + telling_from(cut, i + 1)
    } else {
        telling_from(cut, i + 1)
    }
}

/// The telling lines of `s`.
pub open spec fn telling_lines(s: Seq<char>) -> Seq<Seq<char>> {
    telling_from(pieces(s, seq!['\n'], 0), 0)
}

/// The telling lines of `chars`.
pub fn lines(chars: &[char]) -> (r: Vec<Vec<char>>)
    ensures
        texts(r@) == telling_lines(chars@),
{
    let newline: Vec<char> = vec!['\n'];
    assert(newline@ =~= seq!['\n']);
    let cut: Vec<Vec<char>> = split(chars, newline.as_slice());
    let ghost all = texts(cut@);
    let mut out: Vec<Vec<char>> = Vec::new();
    let mut i: usize = 0;
    proof {
        assert(texts(out@) + telling_from(all, 0) =~= telling_from(all, 0));
    }
    while i < cut.len()
        invariant
            i <= cut.len(),
            all == texts(cut@),
            texts(out@) + telling_from(all, i as int) == telling_from(all, 0),
        decreases cut.len() - i,
    {
        let ghost before = texts(out@);
        let piece: &Vec<char> = &cut[i];
        let n: usize = piece.len();
        let end: usize = if i < cut.len() - 1 && n > 0 && piece[n - 1] == '\r' {
            n - 1
        } else {
            n
        };
        proof {
            assert(all[i as int] == piece@);
            assert(piece@.subrange(0, end as int) =~= line(all, i as int));
        }
        if end > 0 && piece[0] != '#' {
            let one: Vec<char> = copied(piece.as_slice(), 0, end);
            proof {
                lemma_texts_push(out@, one);
                assert(before + (seq![one@] + telling_from(all, i + 1)) =~= before.push(one@)
                    + telling_from(all, i + 1));
            }
            out.push(one);
        }
        i += 1;
    }
    proof {
        assert(texts(out@) + telling_from(all, i as int) =~= texts(out@));
    }
    out
}

// ---------------------------------------------------------------------------
// words
// ---------------------------------------------------------------------------

/// The end of the word that `i` lies in.
pub open spec fn word_end(s: Seq<char>, i: int) -> int
    decreases s.len() - i,
{
    if 0 <= i < s.len() && !unicode::is_space(s[i]) {
        word_end(s, i + 1)
    } else {
        i
    }
}

/// The words of `s` from `i` on: what whitespace keeps apart.
pub open spec fn words_from(s: Seq<char>, i: int) -> Seq<Seq<char>>
    decreases s.len() - i,
{
    if !(0 <= i < s.len()) {
        Seq::empty()
    } else if unicode::is_space(s[i]) || !(i < word_end(s, i) <= s.len()) {
        words_from(s, i + 1)
    } else {
        seq![s.subrange(i, word_end(s, i))] + words_from(s, word_end(s, i))
    }
}

/// A word ends within the text, after it began.
pub proof fn lemma_word_end(s: Seq<char>, i: int)
    requires
        0 <= i <= s.len(),
    ensures
        i <= word_end(s, i) <= s.len(),
        i < s.len() && !unicode::is_space(s[i]) ==> i < word_end(s, i),
    decreases s.len() - i,
{
    if i < s.len() && !unicode::is_space(s[i]) {
        lemma_word_end(s, i + 1);
    }
}

/// The words of `chars`.
pub fn words(chars: &[char]) -> (r: Vec<Vec<char>>)
    ensures
        texts(r@) == words_from(chars@, 0),
{
    let mut out: Vec<Vec<char>> = Vec::new();
    let mut i: usize = 0;
    proof {
        assert(texts(out@) + words_from(chars@, 0) =~= words_from(chars@, 0));
    }
    while i < chars.len()
        invariant
            i <= chars.len(),
            texts(out@) + words_from(chars@, i as int) == words_from(chars@, 0),
        decreases chars.len() - i,
    {
        let ghost before = texts(out@);
        proof {
            lemma_word_end(chars@, i as int);
        }
        if unicode::whitespace(chars[i]) {
            i += 1;
        } else {
            let mut j: usize = i;
            while j < chars.len() && !unicode::whitespace(chars[j])
                invariant
                    i <= j <= chars.len(),
                    word_end(chars@, i as int) == word_end(chars@, j as int),
                decreases chars.len() - j,
            {
                j += 1;
            }
            let word: Vec<char> = copied(chars, i, j);
            proof {
                lemma_texts_push(out@, word);
                assert(before + (seq![word@] + words_from(chars@, j as int)) =~= before.push(
                    word@,
                ) + words_from(chars@, j as int));
            }
            out.push(word);
            i = j;
        }
    }
    proof {
        assert(texts(out@) + words_from(chars@, i as int) =~= texts(out@));
    }
    out
}

// ---------------------------------------------------------------------------
// ends
// ---------------------------------------------------------------------------

/// What follows `prefix` in `s`, where `s` begins with it.
pub open spec fn after(s: Seq<char>, prefix: Seq<char>) -> Option<Seq<char>> {
    if stands(s, prefix, 0) {
        Some(s.skip(prefix.len() as int))
    } else {
        None
    }
}

/// What follows `prefix` in `chars`, where they begin with it.
pub fn strip(chars: &[char], prefix: &str) -> (r: Option<Vec<char>>)
    ensures
        match r {
            Some(v) => after(chars@, prefix@) == Some(v@),
            None => after(chars@, prefix@) is None,
        },
{
    let part: Vec<char> = strings::chars_of(prefix);
    if stands_at(chars, part.as_slice(), 0) {
        let out: Vec<char> = copied(chars, part.len(), chars.len());
        assert(out@ =~= chars@.skip(prefix@.len() as int));
        Some(out)
    } else {
        None
    }
}

/// `s` without whitespace at either end.
pub open spec fn trimmed(s: Seq<char>) -> Seq<char>
    decreases s.len(),
{
    if s.len() > 0 && unicode::is_space(s[0]) {
        trimmed(s.skip(1))
    } else if s.len() > 0 && unicode::is_space(s.last()) {
        trimmed(s.drop_last())
    } else {
        s
    }
}

/// `chars` without whitespace at either end.
pub fn trim(chars: &[char]) -> (r: Vec<char>)
    ensures
        r@ == trimmed(chars@),
{
    let mut a: usize = 0;
    let mut b: usize = chars.len();
    assert(chars@.subrange(0, b as int) =~= chars@);
    while a < b && unicode::whitespace(chars[a])
        invariant
            a <= b == chars.len(),
            trimmed(chars@.subrange(a as int, b as int)) == trimmed(chars@),
        decreases b - a,
    {
        proof {
            let t = chars@.subrange(a as int, b as int);
            assert(t[0] == chars@[a as int]);
            assert(t.skip(1) =~= chars@.subrange(a + 1, b as int));
        }
        a += 1;
    }
    while a < b && unicode::whitespace(chars[b - 1])
        invariant
            a <= b <= chars.len(),
            a < b ==> !unicode::is_space(chars@[a as int]),
            trimmed(chars@.subrange(a as int, b as int)) == trimmed(chars@),
        decreases b - a,
    {
        proof {
            let t = chars@.subrange(a as int, b as int);
            assert(t[0] == chars@[a as int]);
            assert(t.last() == chars@[b - 1]);
            assert(t.drop_last() =~= chars@.subrange(a as int, b - 1));
        }
        b -= 1;
    }
    proof {
        let t = chars@.subrange(a as int, b as int);
        if a < b {
            assert(t[0] == chars@[a as int]);
            assert(t.last() == chars@[b - 1]);
        }
    }
    copied(chars, a, b)
}

} // verus!
