//! What the host must act on.

use vstd::prelude::*;

use crate::buffer;
use crate::command::{Mode, Scroll};
use crate::edit::Edit;

verus! {

/// Something the host must act on.
///
/// Everything else (cursor position, mode, selection) is queryable, so it is not
/// duplicated here. These are the things the core cannot do itself.
#[derive(Debug, Clone, Copy, PartialEq, Eq, Structural)]
pub enum Effect {
    /// Feed to an incremental parser, a language server, a linter. One per
    /// keystroke while typing.
    Edit(Edit),
    ModeChanged(Mode),
    /// The core does not own the viewport.
    Scroll(Scroll),
    /// `:`
    CommandPrompt,
    /// Input was not a valid sequence.
    Bell,
    RecordingStarted(char),
    RecordingStopped(char),
}

// ---------------------------------------------------------------------------
// following a text through its effects
// ---------------------------------------------------------------------------

/// The length of a text after `effect`, from the edits alone; nothing where the
/// edit does not lie in a text of that length, or makes it longer than a buffer
/// can be.
pub open spec fn length_after(len: int, effect: Effect) -> Option<int> {
    match effect {
        Effect::Edit(e) => if e.start_byte <= e.old_end_byte <= len && e.start_byte
            <= e.new_end_byte && len - e.old_end_byte + e.new_end_byte <= buffer::MAX_LEN {
            Some(len - e.old_end_byte + e.new_end_byte)
        } else {
            None
        },
        _ => Some(len),
    }
}

/// The length a text of `len` bytes has after the first `n` of `effects`.
pub open spec fn length_at(len: int, effects: Seq<Effect>, n: int) -> Option<int>
    decreases n,
{
    if n <= 0 {
        Some(len)
    } else {
        match length_at(len, effects, n - 1) {
            Some(l) => length_after(l, effects[n - 1]),
            None => None,
        }
    }
}

/// The length a text of `len` bytes has after `effects`.
pub open spec fn followed(len: int, effects: Seq<Effect>) -> Option<int> {
    length_at(len, effects, effects.len() as int)
}

/// `offset` carried through the edits among `effects` from the `i`th on.
pub open spec fn carried(effects: Seq<Effect>, i: int, offset: int) -> int
    decreases effects.len() - i,
{
    if i >= effects.len() {
        offset
    } else {
        carried(
            effects,
            i + 1,
            match effects[i] {
                Effect::Edit(e) => e.shifted(offset),
                _ => offset,
            },
        )
    }
}

/// The outer extent of the edits among `effects` from the `i`th on, in the text
/// after all of them; nothing where there is no edit.
pub open spec fn edited_extent(effects: Seq<Effect>, i: int) -> Option<(int, int)>
    decreases effects.len() - i,
{
    if i >= effects.len() {
        None
    } else {
        let rest = edited_extent(effects, i + 1);
        match effects[i] {
            Effect::Edit(e) => {
                let a = carried(effects, i + 1, e.start_byte as int);
                let b = carried(effects, i + 1, e.new_end_byte as int);
                match rest {
                    None => Some((a, b)),
                    Some((c, d)) => Some(
                        (
                            if a < c {
                                a
                            } else {
                                c
                            },
                            if b > d {
                                b
                            } else {
                                d
                            },
                        ),
                    ),
                }
            },
            _ => rest,
        }
    }
}

/// Whether `effects` lead from a text of `len` bytes to one of `end` bytes.
pub open spec fn leads(len: int, effects: Seq<Effect>, end: int) -> bool {
    followed(len, effects) == Some(end)
}

/// Following looks at the effects up to where it stands.
pub proof fn lemma_length_prefix(len: int, a: Seq<Effect>, b: Seq<Effect>, n: int)
    requires
        0 <= n <= a.len(),
        n <= b.len(),
        forall|i: int| 0 <= i < n ==> a[i] == b[i],
    ensures
        length_at(len, a, n) == length_at(len, b, n),
    decreases n,
{
    if n > 0 {
        lemma_length_prefix(len, a, b, n - 1);
    }
}

/// One more effect.
pub proof fn lemma_followed_push(len: int, effects: Seq<Effect>, effect: Effect)
    ensures
        followed(len, effects.push(effect)) == match followed(len, effects) {
            Some(l) => length_after(l, effect),
            None => None,
        },
{
    lemma_length_prefix(len, effects, effects.push(effect), effects.len() as int);
}

/// Effects followed by effects.
pub proof fn lemma_followed_append(len: int, a: Seq<Effect>, b: Seq<Effect>)
    ensures
        followed(len, a + b) == match followed(len, a) {
            Some(l) => followed(l, b),
            None => if b.len() == 0 {
                None
            } else {
                followed(len, a + b)
            },
        },
    decreases b.len(),
{
    if b.len() == 0 {
        assert(a + b =~= a);
    } else {
        let c = b.drop_last();
        assert(a + b =~= (a + c).push(b.last()));
        lemma_followed_push(len, a + c, b.last());
        assert(b =~= c.push(b.last()));
        if let Some(l) = followed(len, a) {
            lemma_followed_push(l, c, b.last());
        }
        lemma_followed_append(len, a, c);
    }
}

/// The running length is known up to where it is known at the end.
pub proof fn lemma_length_known(len: int, effects: Seq<Effect>, i: int, n: int)
    requires
        0 <= i <= n,
        length_at(len, effects, n) is Some,
    ensures
        length_at(len, effects, i) is Some,
    decreases n - i,
{
    if i < n {
        lemma_length_known(len, effects, i, n - 1);
    }
}

/// An offset that lies in the text stays in it as it is carried along.
pub proof fn lemma_carried(len: int, effects: Seq<Effect>, i: int, offset: int)
    requires
        0 <= i <= effects.len(),
        followed(len, effects) is Some,
        0 <= offset,
        offset <= length_at(len, effects, i)->0,
    ensures
        0 <= carried(effects, i, offset) <= followed(len, effects)->0,
    decreases effects.len() - i,
{
    if i < effects.len() {
        lemma_length_known(len, effects, i, effects.len() as int);
        lemma_length_known(len, effects, i + 1, effects.len() as int);
        match effects[i] {
            Effect::Edit(e) => {
                lemma_carried(len, effects, i + 1, e.shifted(offset));
            },
            _ => {
                lemma_carried(len, effects, i + 1, offset);
            },
        }
    }
}

/// The outer extent of the edits lies in the text after all of them.
pub proof fn lemma_edited_extent(len: int, effects: Seq<Effect>, i: int)
    requires
        0 <= i <= effects.len(),
        followed(len, effects) is Some,
    ensures
        edited_extent(effects, i) matches Some((a, b)) ==> 0 <= a <= followed(len, effects)->0
            && 0 <= b <= followed(len, effects)->0,
    decreases effects.len() - i,
{
    if i < effects.len() {
        lemma_edited_extent(len, effects, i + 1);
        lemma_length_known(len, effects, i, effects.len() as int);
        lemma_length_known(len, effects, i + 1, effects.len() as int);
        if let Effect::Edit(e) = effects[i] {
            lemma_carried(len, effects, i + 1, e.start_byte as int);
            lemma_carried(len, effects, i + 1, e.new_end_byte as int);
        }
    }
}

} // verus!
