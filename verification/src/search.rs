//! Literal search, smartcase: a pattern without an uppercase character matches
//! regardless of case. Matches begin at grapheme boundaries.

use vstd::prelude::*;
use vstd::utf8::*;

use crate::buffer::Buffer;
use crate::scan;
use crate::strings;
use crate::text;
use crate::unicode;

verus! {

/// Whether `pattern` holds an uppercase character.
pub open spec fn sensitive(pattern: Seq<char>) -> bool {
    exists|i: int| 0 <= i < pattern.len() && unicode::is_upper(#[trigger] pattern[i])
}

/// `s` with every character lowered.
pub open spec fn lowered(s: Seq<char>) -> Seq<char>
    decreases s.len(),
{
    if s.len() == 0 {
        Seq::empty()
    } else {
        lowered(s.drop_last()) + unicode::lower_of(s.last())
    }
}

/// Whether `t` holds the characters of `pattern` from the `i`th on at offset `o`.
pub open spec fn spelled_at(t: Seq<u8>, o: int, pattern: Seq<char>, i: int) -> bool
    decreases pattern.len() - i,
{
    i >= pattern.len() || (0 <= o < t.len() && text::char_at(t, o) == Some(pattern[i])
        && spelled_at(t, text::next(t, o), pattern, i + 1))
}

/// Whether the characters of `t` from offset `o` on, lowered one by one behind
/// `so_far`, come to spell `goal`.
pub open spec fn folded_at(t: Seq<u8>, o: int, so_far: Seq<char>, goal: Seq<char>) -> bool
    decreases scan::gap(o, t.len() as int),
{
    0 <= o < t.len() && {
        let more = so_far + unicode::lower_of(text::char_at(t, o)->0);
        more == goal || folded_at(t, text::next(t, o), more, goal)
    }
}

/// Whether `pattern` matches at offset `o` of `t`.
pub open spec fn matches_at(t: Seq<u8>, o: int, pattern: Seq<char>) -> bool {
    if sensitive(pattern) {
        spelled_at(t, o, pattern, 0)
    } else {
        folded_at(t, o, Seq::empty(), lowered(pattern))
    }
}

/// The first `n` of `starts` at which `pattern` matches.
pub open spec fn matching(t: Seq<u8>, starts: Seq<usize>, pattern: Seq<char>, n: int) -> Seq<
    usize,
>
    decreases n,
{
    if n <= 0 {
        Seq::empty()
    } else {
        let rest = matching(t, starts, pattern, n - 1);
        if matches_at(t, starts[n - 1] as int, pattern) {
            rest.push(starts[n - 1])
        } else {
            rest
        }
    }
}

/// The grapheme boundaries of `t` at which `pattern` matches.
pub open spec fn match_offsets(t: Seq<u8>, pattern: Seq<char>) -> Seq<usize> {
    let starts = unicode::grapheme_starts(decode_utf8(t));
    matching(t, starts, pattern, starts.len() as int)
}

/// The first of `ms`, from the `i`th on, past `x`.
pub open spec fn first_past(ms: Seq<usize>, x: int, i: int) -> Option<usize>
    decreases ms.len() - i,
{
    if i >= ms.len() {
        None
    } else if ms[i] > x {
        Some(ms[i])
    } else {
        first_past(ms, x, i + 1)
    }
}

/// The last of the first `n` of `ms` before `x`.
pub open spec fn last_ahead(ms: Seq<usize>, x: int, n: int) -> Option<usize>
    decreases n,
{
    if n <= 0 {
        None
    } else if ms[n - 1] < x {
        Some(ms[n - 1])
    } else {
        last_ahead(ms, x, n - 1)
    }
}

/// The match after `x` in the direction of the search, wrapping at either end.
pub open spec fn hop(ms: Seq<usize>, x: int, backward: bool) -> int {
    if backward {
        match last_ahead(ms, x, ms.len() as int) {
            Some(m) => m as int,
            None => ms.last() as int,
        }
    } else {
        match first_past(ms, x, 0) {
            Some(m) => m as int,
            None => ms[0] as int,
        }
    }
}

/// The `n`th match after `x` in the direction of the search.
pub open spec fn hops(ms: Seq<usize>, x: int, backward: bool, n: int) -> int
    decreases n,
{
    if n <= 0 {
        x
    } else {
        hops(ms, hop(ms, x, backward), backward, n - 1)
    }
}

/// Where a counted search from `from` lands; nowhere for an empty pattern or one
/// that matches nowhere.
pub open spec fn found(
    t: Seq<u8>,
    from: int,
    pattern: Seq<char>,
    backward: bool,
    repeat: int,
) -> Option<int> {
    let ms = match_offsets(t, pattern);
    if pattern.len() == 0 || ms.len() == 0 {
        None
    } else {
        Some(hops(ms, from, backward, repeat))
    }
}

fn has_uppercase(pattern: &Vec<char>) -> (r: bool)
    ensures
        r == sensitive(pattern@),
{
    let mut i: usize = 0;
    while i < pattern.len()
        invariant
            i <= pattern.len(),
            forall|k: int| 0 <= k < i ==> !unicode::is_upper(#[trigger] pattern@[k]),
        decreases pattern.len() - i,
    {
        if unicode::uppercase(pattern[i]) {
            assert(unicode::is_upper(pattern@[i as int]));
            return true;
        }
        i += 1;
    }
    false
}

/// `more` appended to `out`.
fn extend_chars(out: &mut Vec<char>, more: &str)
    ensures
        final(out)@ == old(out)@ + more@,
{
    let chars: Vec<char> = strings::chars_of(more);
    let mut i: usize = 0;
    while i < chars.len()
        invariant
            i <= chars.len(),
            chars@ == more@,
            out@ == old(out)@ + more@.take(i as int),
        decreases chars.len() - i,
    {
        out.push(chars[i]);
        i += 1;
        proof {
            assert(more@.take(i as int) =~= more@.take(i - 1).push(more@[i - 1]));
            assert(out@ =~= old(out)@ + more@.take(i as int));
        }
    }
    proof {
        assert(more@.take(more@.len() as int) =~= more@);
    }
}

/// `pattern` in lower case.
pub(crate) fn fold(pattern: &Vec<char>) -> (r: Vec<char>)
    ensures
        r@ == lowered(pattern@),
{
    let mut out: Vec<char> = Vec::new();
    let mut i: usize = 0;
    proof {
        assert(pattern@.take(0) =~= Seq::<char>::empty());
    }
    while i < pattern.len()
        invariant
            i <= pattern.len(),
            out@ == lowered(pattern@.take(i as int)),
        decreases pattern.len() - i,
    {
        extend_chars(&mut out, unicode::lower(pattern[i]).as_str());
        i += 1;
        proof {
            assert(pattern@.take(i as int).drop_last() =~= pattern@.take(i - 1));
        }
    }
    proof {
        assert(pattern@.take(pattern@.len() as int) =~= pattern@);
    }
    out
}

fn is_prefix(a: &Vec<char>, b: &Vec<char>) -> (r: bool)
    ensures
        r == a@.is_prefix_of(b@),
{
    if a.len() > b.len() {
        return false;
    }
    let mut i: usize = 0;
    while i < a.len()
        invariant
            i <= a.len() <= b.len(),
            forall|k: int| 0 <= k < i ==> a[k] == b[k],
        decreases a.len() - i,
    {
        if a[i] != b[i] {
            proof {
                assert(b@.subrange(0, a@.len() as int)[i as int] != a@[i as int]);
            }
            return false;
        }
        i += 1;
    }
    proof {
        assert(a@ =~= b@.subrange(0, a@.len() as int));
    }
    true
}

/// What is no prefix of the goal never comes to spell it.
proof fn lemma_strayed(t: Seq<u8>, o: int, so_far: Seq<char>, goal: Seq<char>)
    requires
        !so_far.is_prefix_of(goal),
    ensures
        !folded_at(t, o, so_far, goal),
    decreases scan::gap(o, t.len() as int),
{
    if 0 <= o < t.len() {
        let more = so_far + unicode::lower_of(text::char_at(t, o)->0);
        if more.is_prefix_of(goal) {
            assert(so_far =~= goal.subrange(0, so_far.len() as int)) by {
                assert forall|k: int| 0 <= k < so_far.len() implies so_far[k] == goal[k] by {
                    assert(more[k] == goal.subrange(0, more.len() as int)[k]);
                }
            }
        }
        if more == goal {
            assert(more =~= goal.subrange(0, more.len() as int));
        }
        lemma_strayed(t, text::next(t, o), more, goal);
    }
}

/// Whether `pattern`, or its folded form, matches at `offset`.
fn literal_prefix(
    buf: &Buffer,
    offset: usize,
    pattern: &Vec<char>,
    folded: &Option<Vec<char>>,
) -> (r: bool)
    requires
        buf.wf(),
        text::bound(buf@, offset as int),
        match folded {
            Some(goal) => !sensitive(pattern@) && goal@ == lowered(pattern@),
            None => sensitive(pattern@),
        },
    ensures
        r == matches_at(buf@, offset as int, pattern@),
{
    let mut pos: usize = offset;
    match folded {
        None => {
            let mut i: usize = 0;
            while i < pattern.len()
                invariant
                    buf.wf(),
                    text::bound(buf@, pos as int),
                    i <= pattern.len(),
                    sensitive(pattern@),
                    spelled_at(buf@, offset as int, pattern@, 0) == spelled_at(
                        buf@,
                        pos as int,
                        pattern@,
                        i as int,
                    ),
                decreases pattern.len() - i,
            {
                match buf.char_at(pos) {
                    Some(ch) => {
                        if ch != pattern[i] {
                            return false;
                        }
                    },
                    None => {
                        return false;
                    },
                }
                pos = scan::advance_char(buf, pos);
                i += 1;
            }
            true
        },
        Some(goal) => {
            let mut candidate: Vec<char> = Vec::new();
            loop
                invariant
                    buf.wf(),
                    text::bound(buf@, pos as int),
                    goal@ == lowered(pattern@),
                    folded_at(buf@, offset as int, Seq::empty(), goal@) == folded_at(
                        buf@,
                        pos as int,
                        candidate@,
                        goal@,
                    ),
                    !sensitive(pattern@),
                decreases buf@.len() - pos,
            {
                match buf.char_at(pos) {
                    Some(ch) => {
                        extend_chars(&mut candidate, unicode::lower(ch).as_str());
                    },
                    None => {
                        return false;
                    },
                }
                let inside: bool = is_prefix(&candidate, goal);
                if inside && candidate.len() == goal.len() {
                    proof {
                        assert(candidate@ =~= goal@);
                    }
                    return true;
                }
                proof {
                    if candidate@ == goal@ {
                        assert(candidate@ =~= goal@.subrange(0, candidate@.len() as int));
                    }
                    if !inside {
                        lemma_strayed(
                            buf@,
                            text::next(buf@, pos as int),
                            candidate@,
                            goal@,
                        );
                    }
                }
                if !inside {
                    return false;
                }
                pos = scan::advance_char(buf, pos);
            }
        },
    }
}

/// Every match is one of the starts.
proof fn lemma_matching(t: Seq<u8>, starts: Seq<usize>, pattern: Seq<char>, n: int)
    requires
        0 <= n <= starts.len(),
        forall|i: int|
            0 <= i < starts.len() ==> #[trigger] starts[i] < t.len() && text::bound(
                t,
                starts[i] as int,
            ),
    ensures
        forall|k: int|
            0 <= k < matching(t, starts, pattern, n).len() ==> #[trigger] matching(
                t,
                starts,
                pattern,
                n,
            )[k] < t.len() && text::bound(t, matching(t, starts, pattern, n)[k] as int),
    decreases n,
{
    if n > 0 {
        lemma_matching(t, starts, pattern, n - 1);
        let rest = matching(t, starts, pattern, n - 1);
        let all = matching(t, starts, pattern, n);
        assert(starts[n - 1] < t.len());
        assert forall|k: int| 0 <= k < all.len() implies #[trigger] all[k] < t.len()
            && text::bound(t, all[k] as int) by {
            if k < rest.len() {
                assert(all[k] == rest[k]);
            }
        }
    }
}

fn next_match(ms: &Vec<usize>, from: usize, backward: bool) -> (r: usize)
    requires
        ms.len() > 0,
    ensures
        r == hop(ms@, from as int, backward),
        exists|k: int| 0 <= k < ms.len() && ms@[k] == r,
{
    if backward {
        let mut n: usize = ms.len();
        while n > 0
            invariant
                backward,
                n <= ms.len(),
                last_ahead(ms@, from as int, ms.len() as int) == last_ahead(
                    ms@,
                    from as int,
                    n as int,
                ),
            decreases n,
        {
            if ms[n - 1] < from {
                assert(ms@[n - 1] == ms[n - 1]);
                return ms[n - 1];
            }
            n -= 1;
        }
        assert(ms@[ms.len() - 1] == ms@.last());
        ms[ms.len() - 1]
    } else {
        let mut i: usize = 0;
        while i < ms.len()
            invariant
                !backward,
                i <= ms.len(),
                first_past(ms@, from as int, 0) == first_past(ms@, from as int, i as int),
            decreases ms.len() - i,
        {
            if ms[i] > from {
                assert(ms@[i as int] == ms[i as int]);
                return ms[i];
            }
            i += 1;
        }
        assert(ms@[0] == ms[0]);
        ms[0]
    }
}

/// Once a hop goes nowhere, none does.
proof fn lemma_hops_stuck(ms: Seq<usize>, x: int, backward: bool, n: int)
    requires
        hop(ms, x, backward) == x,
    ensures
        hops(ms, x, backward, n) == x,
    decreases n,
{
    if n > 0 {
        lemma_hops_stuck(ms, x, backward, n - 1);
    }
}

/// Find the counted literal match in the given direction, wrapping at either end.
pub(crate) fn search(
    buf: &Buffer,
    from: usize,
    pattern: &str,
    backward: bool,
    repeat: usize,
) -> (r: Option<usize>)
    requires
        buf.wf(),
        from <= buf@.len(),
    ensures
        match r {
            Some(p) => found(buf@, from as int, pattern@, backward, repeat as int) == Some(
                p as int,
            ) && p <= buf@.len(),
            None => found(buf@, from as int, pattern@, backward, repeat as int) is None,
        },
{
    let wanted: Vec<char> = strings::chars_of(pattern);
    if wanted.len() == 0 {
        return None;
    }
    let folded: Option<Vec<char>> = if has_uppercase(&wanted) {
        None
    } else {
        Some(fold(&wanted))
    };
    let whole: String = buf.to_string();
    let starts: Vec<usize> = unicode::grapheme_offsets(whole.as_str());
    proof {
        encode_utf8_decode_utf8(whole@);
    }
    let mut ms: Vec<usize> = Vec::new();
    let mut i: usize = 0;
    while i < starts.len()
        invariant
            buf.wf(),
            i <= starts.len(),
            wanted@ == pattern@,
            match folded {
                Some(goal) => !sensitive(wanted@) && goal@ == lowered(wanted@),
                None => sensitive(wanted@),
            },
            unicode::cuts(starts@, buf@),
            ms@ == matching(buf@, starts@, pattern@, i as int),
        decreases starts.len() - i,
    {
        assert(text::bound(buf@, starts@[i as int] as int));
        if literal_prefix(buf, starts[i], &wanted, &folded) {
            ms.push(starts[i]);
        }
        i += 1;
    }
    if ms.len() == 0 {
        return None;
    }
    proof {
        lemma_matching(buf@, starts@, pattern@, starts.len() as int);
    }
    let mut landed: usize = from;
    let mut left: usize = repeat;
    while left > 0
        invariant
            ms.len() > 0,
            pattern@.len() > 0,
            ms@ == match_offsets(buf@, pattern@),
            landed <= buf@.len(),
            forall|k: int| 0 <= k < ms.len() ==> #[trigger] ms@[k] < buf@.len(),
            hops(ms@, from as int, backward, repeat as int) == hops(
                ms@,
                landed as int,
                backward,
                left as int,
            ),
        decreases left,
    {
        let next: usize = next_match(&ms, landed, backward);
        if next == landed {
            proof {
                lemma_hops_stuck(ms@, landed as int, backward, left as int);
            }
            return Some(landed);
        }
        landed = next;
        left -= 1;
    }
    Some(landed)
}

} // verus!
