//! What the editor remembers in tables: macro scripts, jumps and marks.

use vstd::prelude::*;

use crate::effect::Effect;
use crate::key::Key;
use crate::keymap;
use crate::state;

verus! {

/// The last of the first `n` entries for `register`.
spec fn entry_of(entries: Seq<(char, Vec<Key>)>, register: char, n: int) -> Option<int>
    decreases n,
{
    if n <= 0 {
        None
    } else if entries[n - 1].0 == register {
        Some(n - 1)
    } else {
        entry_of(entries, register, n - 1)
    }
}

/// The scripts the entries hold, by register.
pub(crate) closed spec fn scripts_of(entries: Seq<(char, Vec<Key>)>) -> Map<char, Seq<Key>> {
    Map::new(
        |register: char| entry_of(entries, register, entries.len() as int) is Some,
        |register: char| entries[entry_of(entries, register, entries.len() as int)->0].1@,
    )
}

proof fn lemma_entry(entries: Seq<(char, Vec<Key>)>, register: char, n: int)
    requires
        0 <= n <= entries.len(),
    ensures
        entry_of(entries, register, n) matches Some(i) ==> 0 <= i < n && entries[i].0 == register,
        entry_of(entries, register, n) is None ==> forall|i: int|
            0 <= i < n ==> (#[trigger] entries[i]).0 != register,
    decreases n,
{
    if n > 0 && entries[n - 1].0 != register {
        lemma_entry(entries, register, n - 1);
    }
}

/// Entries are found by their registers alone.
proof fn lemma_entry_agrees(
    a: Seq<(char, Vec<Key>)>,
    b: Seq<(char, Vec<Key>)>,
    register: char,
    n: int,
)
    requires
        0 <= n <= a.len(),
        n <= b.len(),
        forall|i: int| 0 <= i < n ==> (#[trigger] a[i]).0 == b[i].0,
    ensures
        entry_of(a, register, n) == entry_of(b, register, n),
    decreases n,
{
    if n > 0 {
        assert(a[n - 1].0 == b[n - 1].0);
        lemma_entry_agrees(a, b, register, n - 1);
    }
}

/// Where the entries hold the script of `register`.
fn find_entry(entries: &Vec<(char, Vec<Key>)>, register: char) -> (r: Option<usize>)
    ensures
        match r {
            Some(i) => entry_of(entries@, register, entries@.len() as int) == Some(i as int) && i
                < entries.len(),
            None => entry_of(entries@, register, entries@.len() as int) is None,
        },
{
    let mut n: usize = entries.len();
    while n > 0
        invariant
            n <= entries.len(),
            entry_of(entries@, register, entries@.len() as int) == entry_of(
                entries@,
                register,
                n as int,
            ),
        decreases n,
    {
        n -= 1;
        if entries[n].0 == register {
            return Some(n);
        }
    }
    None
}

/// Let `register` hold `script`.
pub(crate) fn put_script(entries: &mut Vec<(char, Vec<Key>)>, register: char, script: Vec<Key>)
    ensures
        scripts_of(final(entries)@) == scripts_of(old(entries)@).insert(register, script@),
{
    let ghost before = entries@;
    match find_entry(entries, register) {
        Some(i) => {
            proof {
                lemma_entry(before, register, before.len() as int);
            }
            entries.set(i, (register, script));
            proof {
                assert forall|c: char|
                    entry_of(entries@, c, entries@.len() as int) == entry_of(
                        before,
                        c,
                        before.len() as int,
                    ) by {
                    lemma_entry_agrees(before, entries@, c, before.len() as int);
                }
                assert forall|c: char| c != register implies (#[trigger] entry_of(
                    before,
                    c,
                    before.len() as int,
                ) matches Some(j) ==> j != i && 0 <= j < before.len()) by {
                    lemma_entry(before, c, before.len() as int);
                }
                assert(scripts_of(entries@) =~= scripts_of(before).insert(register, script@));
            }
        },
        None => {
            entries.push((register, script));
            proof {
                assert forall|c: char|
                    entry_of(entries@, c, entries@.len() as int) == if c == register {
                        Some(before.len() as int)
                    } else {
                        entry_of(before, c, before.len() as int)
                    } by {
                    lemma_entry_agrees(before, entries@, c, before.len() as int);
                }
                assert forall|c: char| c != register implies (#[trigger] entry_of(
                    before,
                    c,
                    before.len() as int,
                ) matches Some(j) ==> 0 <= j < before.len()) by {
                    lemma_entry(before, c, before.len() as int);
                }
                assert(scripts_of(entries@) =~= scripts_of(before).insert(register, script@));
            }
        },
    }
}

/// A copy of the entries.
pub(crate) fn clone_scripts(entries: &Vec<(char, Vec<Key>)>) -> (r: Vec<(char, Vec<Key>)>)
    ensures
        scripts_of(r@) == scripts_of(entries@),
{
    let mut out: Vec<(char, Vec<Key>)> = Vec::new();
    let mut i: usize = 0;
    while i < entries.len()
        invariant
            i <= entries.len(),
            out.len() == i,
            forall|k: int|
                0 <= k < i ==> (#[trigger] out[k]).0 == entries[k].0 && out[k].1@ == entries[k].1@,
        decreases entries.len() - i,
    {
        out.push((entries[i].0, keymap::clone_keys(entries[i].1.as_slice())));
        i += 1;
    }
    proof {
        assert forall|c: char|
            entry_of(out@, c, out@.len() as int) == entry_of(
                entries@,
                c,
                entries@.len() as int,
            ) by {
            lemma_entry_agrees(out@, entries@, c, out@.len() as int);
        }
        assert forall|c: char|
            (#[trigger] entry_of(out@, c, out@.len() as int)) matches Some(j) ==> 0 <= j
                < out.len() by {
            lemma_entry(out@, c, out@.len() as int);
        }
        assert(scripts_of(out@) =~= scripts_of(entries@));
    }
    out
}

/// A copy of remembered offsets.
pub(crate) fn clone_offsets(offsets: &Vec<usize>) -> (r: Vec<usize>)
    ensures
        r@ == offsets@,
{
    let mut out: Vec<usize> = Vec::new();
    let mut i: usize = 0;
    while i < offsets.len()
        invariant
            i <= offsets.len(),
            out@ == offsets@.take(i as int),
        decreases offsets.len() - i,
    {
        out.push(offsets[i]);
        i += 1;
        proof {
            assert(offsets@.take(i as int) =~= offsets@.take(i - 1).push(offsets@[i - 1]));
        }
    }
    proof {
        assert(offsets@.take(offsets@.len() as int) =~= offsets@);
    }
    out
}

/// A copy of the marks.
pub(crate) fn clone_marks(marks: &Vec<Option<usize>>) -> (r: Vec<Option<usize>>)
    ensures
        r@ == marks@,
{
    let mut out: Vec<Option<usize>> = Vec::new();
    let mut i: usize = 0;
    while i < marks.len()
        invariant
            i <= marks.len(),
            out@ == marks@.take(i as int),
        decreases marks.len() - i,
    {
        out.push(marks[i]);
        i += 1;
        proof {
            assert(marks@.take(i as int) =~= marks@.take(i - 1).push(marks@[i - 1]));
        }
    }
    proof {
        assert(marks@.take(marks@.len() as int) =~= marks@);
    }
    out
}

/// No mark set.
pub(crate) fn unset_marks() -> (r: Vec<Option<usize>>)
    ensures
        r@ == state::no_marks(),
{
    let mut out: Vec<Option<usize>> = Vec::new();
    while out.len() < state::MARK_COUNT
        invariant
            out.len() <= state::MARK_COUNT,
            forall|i: int| 0 <= i < out.len() ==> out[i] is None,
        decreases state::MARK_COUNT - out.len(),
    {
        out.push(None);
    }
    assert(out@ =~= state::no_marks());
    out
}

/// The script of `register`.
pub(crate) fn script_in(entries: &Vec<(char, Vec<Key>)>, register: char) -> (r: Option<Vec<Key>>)
    ensures
        match r {
            Some(script) => scripts_of(entries@).dom().contains(register) && scripts_of(
                entries@,
            )[register] == script@,
            None => !scripts_of(entries@).dom().contains(register),
        },
{
    match find_entry(entries, register) {
        Some(i) => Some(keymap::clone_keys(entries[i].1.as_slice())),
        None => None,
    }
}

/// A table without scripts.
pub(crate) fn no_scripts() -> (r: Vec<(char, Vec<Key>)>)
    ensures
        scripts_of(r@) == Map::<char, Seq<Key>>::empty(),
{
    let r: Vec<(char, Vec<Key>)> = Vec::new();
    assert(scripts_of(r@) =~= Map::<char, Seq<Key>>::empty());
    r
}

/// Append `more` to `effects`.
pub(crate) fn extend_effects(effects: &mut Vec<Effect>, more: &Vec<Effect>)
    ensures
        final(effects)@ == old(effects)@ + more@,
{
    let mut i: usize = 0;
    proof {
        assert(effects@ =~= old(effects)@ + more@.take(0));
    }
    while i < more.len()
        invariant
            i <= more.len(),
            effects@ == old(effects)@ + more@.take(i as int),
        decreases more.len() - i,
    {
        effects.push(more[i]);
        i += 1;
        proof {
            assert(effects@ =~= old(effects)@ + more@.take(i as int));
        }
    }
    proof {
        assert(more@.take(i as int) =~= more@);
    }
}

} // verus!
