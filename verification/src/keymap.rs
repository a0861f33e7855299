//! The keymap: bindings indexed by key sequence.
//!
//! Layered the way vi's own `:map` commands are, because the ambiguity is real:
//! `i` enters insert mode in normal mode but means *inner* while an operator is
//! pending. One flat table cannot express that.

use vstd::prelude::*;

use crate::command::{
    AwaitChar, Command, InsertAt, Mode, Motion, ObjectScope, Operator, Scroll, Target, TextObject,
    VisualKind,
};
use crate::key;
use crate::key::{Key, KeyCode, Mods, ParseError};

verus! {

/// Which table a lookup consults. Mirrors vi's `nmap` / `omap` / `vmap` / `imap`.
///
/// [`Layer::Operator`] and [`Layer::Visual`] fall back to [`Layer::Normal`], so a
/// motion bound once is available everywhere a motion makes sense.
#[derive(Debug, Clone, Copy, PartialEq, Eq, PartialOrd, Ord, Hash, Structural)]
pub enum Layer {
    Normal,
    /// Consulted while an operator is pending: `d`_`iw`_, `c`_`w`_.
    Operator,
    Visual,
    Insert,
}

impl Layer {
    /// The layer a mode uses when no operator is pending.
    pub open spec fn for_mode(mode: Mode) -> Layer {
        match mode {
            Mode::Normal => Layer::Normal,
            Mode::Insert | Mode::Replace => Layer::Insert,
            Mode::Visual(_) => Layer::Visual,
        }
    }

    /// The layer a mode uses when no operator is pending.
    ///
    /// Replace mode shares the insert layer; bind it there.
    #[must_use]
    pub fn of(mode: Mode) -> (r: Self)
        ensures
            r == Layer::for_mode(mode),
    {
        match mode {
            Mode::Normal => Self::Normal,
            Mode::Insert | Mode::Replace => Self::Insert,
            Mode::Visual(_) => Self::Visual,
        }
    }

    /// The layer consulted when this one has no answer.
    pub open spec fn next_layer(self) -> Option<Layer> {
        match self {
            Layer::Operator | Layer::Visual => Some(Layer::Normal),
            Layer::Normal | Layer::Insert => None,
        }
    }

    fn fallback(self) -> (r: Option<Self>)
        ensures
            r == self.next_layer(),
    {
        match self {
            Self::Operator | Self::Visual => Some(Self::Normal),
            Self::Normal | Self::Insert => None,
        }
    }
}

/// What a key sequence maps to.
///
/// Not every binding is a complete command: operators, object scopes and
/// character-argument bindings all leave the parser expecting more input. That is
/// why this is a separate type from [`Command`].
#[derive(Debug, PartialEq, Eq)]
pub enum Binding<P = String> {
    /// Complete on its own.
    Command(Command<P>),
    /// Awaits a target: a motion, a text object, or a doubling.
    Operator(Operator),
    /// A movement, which becomes a target if an operator is pending.
    Motion(Motion<P>),
    /// `i` / `a`, awaiting an object key.
    ObjectScope(ObjectScope),
    /// Awaits one literal character.
    Await(AwaitChar),
    /// Awaits a literal search pattern terminated by `<CR>`.
    Search { backward: bool },
}

impl View for Binding {
    type V = Binding<Seq<char>>;

    open spec fn view(&self) -> Binding<Seq<char>> {
        match *self {
            Binding::Command(command) => Binding::Command(command@),
            Binding::Operator(operator) => Binding::Operator(operator),
            Binding::Motion(motion) => Binding::Motion(motion@),
            Binding::ObjectScope(scope) => Binding::ObjectScope(scope),
            Binding::Await(awaiting) => Binding::Await(awaiting),
            Binding::Search { backward } => Binding::Search { backward },
        }
    }
}

impl Clone for Binding {
    fn clone(&self) -> (r: Self)
        ensures
            r == *self,
    {
        match self {
            Binding::Command(command) => Binding::Command(command.clone()),
            Binding::Operator(operator) => Binding::Operator(*operator),
            Binding::Motion(motion) => Binding::Motion(motion.clone()),
            Binding::ObjectScope(scope) => Binding::ObjectScope(*scope),
            Binding::Await(awaiting) => Binding::Await(*awaiting),
            Binding::Search { backward } => Binding::Search { backward: *backward },
        }
    }
}

/// The result of walking a key path through one layer.
#[derive(Debug, PartialEq, Eq)]
pub enum Walk<P = String> {
    /// A valid prefix; more keys needed.
    Prefix,
    /// A complete binding.
    Bound(Binding<P>),
    /// No binding and no prefix.
    Unbound,
}

impl View for Walk {
    type V = Walk<Seq<char>>;

    open spec fn view(&self) -> Walk<Seq<char>> {
        match *self {
            Walk::Prefix => Walk::Prefix,
            Walk::Bound(binding) => Walk::Bound(binding@),
            Walk::Unbound => Walk::Unbound,
        }
    }
}

impl Clone for Walk {
    fn clone(&self) -> (r: Self)
        ensures
            r == *self,
    {
        match self {
            Walk::Prefix => Walk::Prefix,
            Walk::Bound(binding) => Walk::Bound(binding.clone()),
            Walk::Unbound => Walk::Unbound,
        }
    }
}

// ---------------------------------------------------------------------------
// the model
// ---------------------------------------------------------------------------

/// The bindings of one layer.
pub type Table = Map<Seq<Key>, Binding<Seq<char>>>;

/// Whether one of the sequences continues the other.
pub open spec fn related(a: Seq<Key>, b: Seq<Key>) -> bool {
    a.is_prefix_of(b) || b.is_prefix_of(a)
}

/// Whether no sequence is empty and none continues another, so that a path never
/// means two things.
pub open spec fn unambiguous(table: Table) -> bool {
    &&& forall|s: Seq<Key>| #[trigger] table.dom().contains(s) ==> s.len() > 0
    &&& forall|a: Seq<Key>, b: Seq<Key>|
        #[trigger] table.dom().contains(a) && #[trigger] table.dom().contains(b) && a != b
            ==> !a.is_prefix_of(b)
}

/// Where `path` leads in one layer.
pub open spec fn walk_of(table: Table, path: Seq<Key>) -> Walk<Seq<char>> {
    if path.len() == 0 {
        Walk::Prefix
    } else if table.dom().contains(path) {
        Walk::Bound(table[path])
    } else if exists|s: Seq<Key>| #[trigger] table.dom().contains(s) && path.is_prefix_of(s) {
        Walk::Prefix
    } else {
        Walk::Unbound
    }
}

/// What a [`Keymap`] holds.
#[verifier::ext_equal]
pub struct KeymapState {
    pub normal: Table,
    pub operator: Table,
    pub visual: Table,
    pub insert: Table,
    pub objects: Map<Key, TextObject>,
}

impl KeymapState {
    /// No bindings at all.
    pub open spec fn empty() -> KeymapState {
        KeymapState {
            normal: Map::empty(),
            operator: Map::empty(),
            visual: Map::empty(),
            insert: Map::empty(),
            objects: Map::empty(),
        }
    }

    /// The bindings of `layer`.
    pub open spec fn layer(self, layer: Layer) -> Table {
        match layer {
            Layer::Normal => self.normal,
            Layer::Operator => self.operator,
            Layer::Visual => self.visual,
            Layer::Insert => self.insert,
        }
    }

    /// The keymap with the bindings of `layer` replaced.
    pub open spec fn with_layer(self, layer: Layer, table: Table) -> KeymapState {
        match layer {
            Layer::Normal => KeymapState { normal: table, ..self },
            Layer::Operator => KeymapState { operator: table, ..self },
            Layer::Visual => KeymapState { visual: table, ..self },
            Layer::Insert => KeymapState { insert: table, ..self },
        }
    }

    /// The keymap with `sequence` bound: whatever occupied that path goes, a
    /// subtree beneath it and a binding above it alike.
    pub open spec fn bound(
        self,
        layer: Layer,
        sequence: Seq<Key>,
        binding: Binding<Seq<char>>,
    ) -> KeymapState {
        let table = self.layer(layer);
        let kept = table.restrict(table.dom().filter(|s: Seq<Key>| !related(s, sequence)));
        self.with_layer(layer, kept.insert(sequence, binding))
    }

    /// The keymap without `sequence` and any subtree beneath it.
    pub open spec fn unbound(self, layer: Layer, sequence: Seq<Key>) -> KeymapState {
        let table = self.layer(layer);
        self.with_layer(
            layer,
            table.restrict(table.dom().filter(|s: Seq<Key>| !sequence.is_prefix_of(s))),
        )
    }

    /// The keymap with `key` selecting `object` after `i` or `a`.
    pub open spec fn object_bound(self, key: Key, object: TextObject) -> KeymapState {
        KeymapState { objects: self.objects.insert(key, object), ..self }
    }

    /// Where `path` leads in `layer`, or else in the layer it falls back to.
    pub open spec fn walked(self, layer: Layer, path: Seq<Key>) -> Walk<Seq<char>> {
        match walk_of(self.layer(layer), path) {
            Walk::Unbound => match layer.next_layer() {
                Some(next) => walk_of(self.layer(next), path),
                None => Walk::Unbound,
            },
            found => found,
        }
    }

    /// The text object `key` selects.
    pub open spec fn object_of(self, key: Key) -> Option<TextObject> {
        if self.objects.dom().contains(key) {
            Some(self.objects[key])
        } else {
            None
        }
    }

    /// Whether no path means two things in any layer.
    pub open spec fn wf(self) -> bool {
        &&& unambiguous(self.normal)
        &&& unambiguous(self.operator)
        &&& unambiguous(self.visual)
        &&& unambiguous(self.insert)
    }
}

// ---------------------------------------------------------------------------
// one layer
// ---------------------------------------------------------------------------

/// One layer's bindings, in the order they were made.
type Entries = Vec<(Vec<Key>, Binding)>;

/// The table the entries stand for.
spec fn table_of(entries: Seq<(Vec<Key>, Binding)>) -> Table
    decreases entries.len(),
{
    if entries.len() == 0 {
        Map::empty()
    } else {
        table_of(entries.drop_last()).insert(entries.last().0@, entries.last().1@)
    }
}

/// Whether no entry is empty and none continues another.
spec fn apart(entries: Seq<(Vec<Key>, Binding)>) -> bool {
    &&& forall|i: int| 0 <= i < entries.len() ==> (#[trigger] entries[i]).0@.len() > 0
    &&& forall|i: int, j: int|
        0 <= i < entries.len() && 0 <= j < entries.len() && i != j ==> !(#[trigger] entries[
            i
        ]).0@.is_prefix_of((#[trigger] entries[j]).0@)
}

/// A sequence is bound exactly where an entry holds it, and to that entry's
/// binding.
proof fn lemma_table(entries: Seq<(Vec<Key>, Binding)>)
    requires
        apart(entries),
    ensures
        forall|i: int|
            0 <= i < entries.len() ==> table_of(entries).dom().contains(
                (#[trigger] entries[i]).0@,
            ) && table_of(entries)[entries[i].0@] == entries[i].1@,
        forall|s: Seq<Key>| #[trigger]
            table_of(entries).dom().contains(s) ==> exists|i: int|
                0 <= i < entries.len() && (#[trigger] entries[i]).0@ == s,
        unambiguous(table_of(entries)),
    decreases entries.len(),
{
    if entries.len() > 0 {
        let front = entries.drop_last();
        let last = entries.last();
        assert(apart(front)) by {
            assert forall|i: int| 0 <= i < front.len() implies (#[trigger] front[i]).0@.len()
                > 0 by {
                assert(front[i] == entries[i]);
            }
            assert forall|i: int, j: int|
                0 <= i < front.len() && 0 <= j < front.len() && i != j implies !(
            #[trigger] front[i]).0@.is_prefix_of((#[trigger] front[j]).0@) by {
                assert(front[i] == entries[i]);
                assert(front[j] == entries[j]);
            }
        }
        lemma_table(front);
        let t = table_of(entries);
        assert forall|i: int| 0 <= i < entries.len() implies t.dom().contains(
            (#[trigger] entries[i]).0@,
        ) && t[entries[i].0@] == entries[i].1@ by {
            if i < front.len() {
                assert(front[i] == entries[i]);
                assert(!entries[i].0@.is_prefix_of(last.0@)) by {
                    assert(entries[entries.len() - 1] == last);
                }
                if entries[i].0@ == last.0@ {
                    assert(entries[i].0@.is_prefix_of(last.0@));
                }
            }
        }
        assert forall|s: Seq<Key>| #[trigger] t.dom().contains(s) implies exists|i: int|
            0 <= i < entries.len() && (#[trigger] entries[i]).0@ == s by {
            if s == last.0@ {
                assert(entries[entries.len() - 1].0@ == s);
            } else {
                let i = choose|i: int| 0 <= i < front.len() && (#[trigger] front[i]).0@ == s;
                assert(entries[i].0@ == s);
            }
        }
        assert forall|a: Seq<Key>, b: Seq<Key>|
            #[trigger] t.dom().contains(a) && #[trigger] t.dom().contains(b) && a
                != b implies !a.is_prefix_of(b) by {
            let i = choose|i: int| 0 <= i < entries.len() && (#[trigger] entries[i]).0@ == a;
            let j = choose|j: int| 0 <= j < entries.len() && (#[trigger] entries[j]).0@ == b;
            assert(i != j);
        }
    }
}

/// A copy of `keys`.
pub fn clone_keys(keys: &[Key]) -> (r: Vec<Key>)
    ensures
        r@ == keys@,
{
    let mut out: Vec<Key> = Vec::new();
    let mut i: usize = 0;
    while i < keys.len()
        invariant
            i <= keys.len(),
            out@ == keys@.take(i as int),
        decreases keys.len() - i,
    {
        out.push(keys[i]);
        i += 1;
        proof {
            assert(keys@.take(i as int) =~= keys@.take(i - 1).push(keys@[i - 1]));
        }
    }
    proof {
        assert(keys@.take(keys@.len() as int) =~= keys@);
    }
    out
}

/// Whether `keys` starts with `prefix`.
pub fn starts_with(keys: &[Key], prefix: &[Key]) -> (r: bool)
    ensures
        r == prefix@.is_prefix_of(keys@),
{
    if prefix.len() > keys.len() {
        return false;
    }
    let mut i: usize = 0;
    while i < prefix.len()
        invariant
            i <= prefix.len() <= keys.len(),
            forall|k: int| 0 <= k < i ==> prefix[k] == keys[k],
        decreases prefix.len() - i,
    {
        if keys[i] != prefix[i] {
            proof {
                assert(keys@.subrange(0, prefix@.len() as int)[i as int] != prefix@[i as int]);
            }
            return false;
        }
        i += 1;
    }
    proof {
        assert(prefix@ =~= keys@.subrange(0, prefix@.len() as int));
    }
    true
}

/// The entries that stand in no way of `sequence`: those that do not continue it
/// and, where `above` is set, that it does not continue either.
fn without(entries: &Entries, sequence: &[Key], above: bool) -> (r: Entries)
    requires
        apart(entries@),
    ensures
        apart(r@),
        table_of(r@) == table_of(entries@).restrict(
            table_of(entries@).dom().filter(
                |s: Seq<Key>|
                    !(sequence@.is_prefix_of(s) || (above && s.is_prefix_of(sequence@))),
            ),
        ),
        forall|k: int|
            0 <= k < r.len() ==> !sequence@.is_prefix_of((#[trigger] r[k]).0@) && !(above
                && r[k].0@.is_prefix_of(sequence@)),
{
    let mut out: Entries = Vec::new();
    let mut i: usize = 0;
    let ghost keep = |s: Seq<Key>|
        !(sequence@.is_prefix_of(s) || (above && s.is_prefix_of(sequence@)));
    proof {
        let t = table_of(entries@.take(0));
        assert(entries@.take(0) =~= Seq::<(Vec<Key>, Binding)>::empty());
        assert(table_of(out@) =~= t.restrict(t.dom().filter(keep)));
    }
    let ghost mut from: Seq<int> = Seq::empty();
    while i < entries.len()
        invariant
            i <= entries.len(),
            apart(entries@),
            keep == (|s: Seq<Key>|
                !(sequence@.is_prefix_of(s) || (above && s.is_prefix_of(sequence@)))),
            from.len() == out.len(),
            forall|k: int| 0 <= k < out.len() ==> 0 <= #[trigger] from[k] < i,
            forall|k: int, l: int| 0 <= k < l < out.len() ==> from[k] < from[l],
            forall|k: int|
                0 <= k < out.len() ==> (#[trigger] out[k]).0@ == entries[from[k]].0@ && keep(
                    out[k].0@,
                ),
            table_of(out@) == table_of(entries@.take(i as int)).restrict(
                table_of(entries@.take(i as int)).dom().filter(keep),
            ),
        decreases entries.len() - i,
    {
        let entry: &(Vec<Key>, Binding) = &entries[i];
        let ghost before = table_of(entries@.take(i as int));
        let ghost after = table_of(entries@.take(i + 1));
        let ghost kept = out@;
        proof {
            assert(entries@.take(i + 1).drop_last() =~= entries@.take(i as int));
            assert(entries@.take(i + 1).last() == *entry);
        }
        if !(starts_with(entry.0.as_slice(), sequence) || (above && starts_with(
            sequence,
            entry.0.as_slice(),
        ))) {
            out.push((clone_keys(entry.0.as_slice()), entry.1.clone()));
            proof {
                from = from.push(i as int);
                assert(out@.drop_last() =~= kept);
                assert(table_of(out@) =~= after.restrict(after.dom().filter(keep)));
            }
        } else {
            proof {
                assert(table_of(out@) =~= after.restrict(after.dom().filter(keep)));
            }
        }
        i += 1;
    }
    proof {
        assert(entries@.take(entries@.len() as int) =~= entries@);
        assert forall|k: int| 0 <= k < out.len() implies (#[trigger] out[k]).0@.len() > 0 by {
            assert(entries[from[k]].0@.len() > 0);
        }
        assert forall|k: int, l: int|
            0 <= k < out.len() && 0 <= l < out.len() && k != l implies !(
        #[trigger] out[k]).0@.is_prefix_of((#[trigger] out[l]).0@) by {
            assert(from[k] != from[l]);
            assert(!entries[from[k]].0@.is_prefix_of(entries[from[l]].0@));
        }
    }
    out
}

/// Where `path` leads among `entries`.
fn walk(entries: &Entries, path: &[Key]) -> (r: Walk)
    requires
        apart(entries@),
    ensures
        r@ == walk_of(table_of(entries@), path@),
{
    if path.len() == 0 {
        return Walk::Prefix;
    }
    proof {
        lemma_table(entries@);
    }
    let mut prefix: bool = false;
    let mut i: usize = 0;
    while i < entries.len()
        invariant
            i <= entries.len(),
            path.len() > 0,
            forall|k: int|
                0 <= k < entries.len() ==> table_of(entries@).dom().contains(
                    (#[trigger] entries@[k]).0@,
                ) && table_of(entries@)[entries@[k].0@] == entries@[k].1@,
            forall|k: int| 0 <= k < i ==> (#[trigger] entries@[k]).0@ != path@,
            prefix == (exists|k: int|
                0 <= k < i && path@.is_prefix_of((#[trigger] entries@[k]).0@)),
        decreases entries.len() - i,
    {
        let entry: &(Vec<Key>, Binding) = &entries[i];
        assert(*entry == entries@[i as int]);
        if starts_with(entry.0.as_slice(), path) {
            if entry.0.len() == path.len() {
                assert(entry.0@ =~= path@);
                return Walk::Bound(entry.1.clone());
            }
            prefix = true;
        } else {
            proof {
                if entry.0@ == path@ {
                    assert(path@ =~= entry.0@.subrange(0, path@.len() as int));
                }
            }
        }
        i += 1;
    }
    proof {
        let t = table_of(entries@);
        if t.dom().contains(path@) {
            let k = choose|k: int| 0 <= k < entries@.len() && (#[trigger] entries@[k]).0@ == path@;
            assert(false);
        }
        if prefix {
            let k = choose|k: int|
                0 <= k < entries@.len() && path@.is_prefix_of((#[trigger] entries@[k]).0@);
            assert(t.dom().contains(entries@[k].0@));
        }
        if exists|s: Seq<Key>| #[trigger] t.dom().contains(s) && path@.is_prefix_of(s) {
            let s = choose|s: Seq<Key>| #[trigger] t.dom().contains(s) && path@.is_prefix_of(s);
            let k = choose|k: int| 0 <= k < entries@.len() && (#[trigger] entries@[k]).0@ == s;
            assert(path@.is_prefix_of(entries@[k].0@));
        }
    }
    if prefix {
        Walk::Prefix
    } else {
        Walk::Unbound
    }
}

/// A copy of `entries`.
fn clone_entries(entries: &Entries) -> (r: Entries)
    ensures
        apart(entries@) ==> apart(r@),
        table_of(r@) == table_of(entries@),
{
    let mut out: Entries = Vec::new();
    let mut i: usize = 0;
    proof {
        assert(entries@.take(0) =~= out@);
    }
    while i < entries.len()
        invariant
            i <= entries.len(),
            out.len() == i,
            forall|k: int| 0 <= k < i ==> (#[trigger] out[k]).0@ == entries[k].0@,
            table_of(out@) == table_of(entries@.take(i as int)),
        decreases entries.len() - i,
    {
        let ghost kept = out@;
        out.push((clone_keys(entries[i].0.as_slice()), entries[i].1.clone()));
        i += 1;
        proof {
            assert(out@.drop_last() =~= kept);
            assert(entries@.take(i as int).drop_last() =~= entries@.take(i - 1));
        }
    }
    proof {
        assert(entries@.take(entries@.len() as int) =~= entries@);
        if apart(entries@) {
            assert forall|k: int| 0 <= k < out.len() implies (#[trigger] out[k]).0@.len() > 0 by {
                assert(entries[k].0@.len() > 0);
            }
            assert forall|k: int, l: int|
                0 <= k < out.len() && 0 <= l < out.len() && k != l implies !(
            #[trigger] out[k]).0@.is_prefix_of((#[trigger] out[l]).0@) by {
                assert(!entries[k].0@.is_prefix_of(entries[l].0@));
            }
        }
    }
    out
}

/// Bind `sequence` among `entries`.
fn bind_in(entries: &mut Entries, sequence: Vec<Key>, binding: Binding)
    requires
        apart(old(entries)@),
        sequence@.len() > 0,
    ensures
        apart(final(entries)@),
        table_of(final(entries)@) == table_of(old(entries)@).restrict(
            table_of(old(entries)@).dom().filter(|s: Seq<Key>| !related(s, sequence@)),
        ).insert(sequence@, binding@),
{
    let ghost t = table_of(entries@);
    // A layer cannot hold both a binding and descendants below it, so everything
    // on the path goes, above and below.
    let mut kept: Entries = without(entries, sequence.as_slice(), true);
    let ghost before = kept@;
    kept.push((sequence, binding));
    proof {
        assert(kept@.drop_last() =~= before);
        let f = |s: Seq<Key>| !related(s, sequence@);
        let g = |s: Seq<Key>|
            !(sequence@.is_prefix_of(s) || (true && s.is_prefix_of(sequence@)));
        assert(t.restrict(t.dom().filter(f)) =~= t.restrict(t.dom().filter(g)));
        assert forall|i: int, j: int|
            0 <= i < kept.len() && 0 <= j < kept.len() && i != j implies !(
        #[trigger] kept@[i]).0@.is_prefix_of((#[trigger] kept@[j]).0@) by {
            if i < before.len() {
                assert(kept@[i] == before[i]);
            }
            if j < before.len() {
                assert(kept@[j] == before[j]);
            }
        }
        assert forall|i: int| 0 <= i < kept.len() implies (#[trigger] kept@[i]).0@.len() > 0 by {
            if i < before.len() {
                assert(kept@[i] == before[i]);
            }
        }
    }
    *entries = kept;
}

// ---------------------------------------------------------------------------
// text objects
// ---------------------------------------------------------------------------

/// The objects the entries stand for.
spec fn objects_of(entries: Seq<(Key, TextObject)>) -> Map<Key, TextObject>
    decreases entries.len(),
{
    if entries.len() == 0 {
        Map::empty()
    } else {
        objects_of(entries.drop_last()).insert(entries.last().0, entries.last().1)
    }
}

/// Without an entry for it, a key selects nothing.
proof fn lemma_no_object(entries: Seq<(Key, TextObject)>, key: Key)
    requires
        forall|i: int| 0 <= i < entries.len() ==> (#[trigger] entries[i]).0 != key,
    ensures
        !objects_of(entries).dom().contains(key),
    decreases entries.len(),
{
    if entries.len() > 0 {
        let front = entries.drop_last();
        assert forall|i: int| 0 <= i < front.len() implies (#[trigger] front[i]).0 != key by {
            assert(front[i] == entries[i]);
        }
        lemma_no_object(front, key);
        assert(entries[entries.len() - 1].0 != key);
    }
}

/// The last entry for a key decides what it selects.
proof fn lemma_object(entries: Seq<(Key, TextObject)>, i: int)
    requires
        0 <= i < entries.len(),
        forall|j: int| i < j < entries.len() ==> (#[trigger] entries[j]).0 != entries[i].0,
    ensures
        objects_of(entries).dom().contains(entries[i].0),
        objects_of(entries)[entries[i].0] == entries[i].1,
    decreases entries.len(),
{
    if i < entries.len() - 1 {
        let front = entries.drop_last();
        assert(front[i] == entries[i]);
        assert forall|j: int| i < j < front.len() implies (#[trigger] front[j]).0
            != front[i].0 by {
            assert(front[j] == entries[j]);
        }
        lemma_object(front, i);
        assert(entries[entries.len() - 1].0 != entries[i].0);
    }
}

// ---------------------------------------------------------------------------
// the keymap
// ---------------------------------------------------------------------------

/// Key sequences to bindings, per layer.
#[derive(Debug)]
pub struct Keymap {
    normal: Vec<(Vec<Key>, Binding)>,
    operator: Vec<(Vec<Key>, Binding)>,
    visual: Vec<(Vec<Key>, Binding)>,
    insert: Vec<(Vec<Key>, Binding)>,
    /// The last entry for a key counts.
    objects: Vec<(Key, TextObject)>,
}

impl View for Keymap {
    type V = KeymapState;

    closed spec fn view(&self) -> KeymapState {
        KeymapState {
            normal: table_of(self.normal@),
            operator: table_of(self.operator@),
            visual: table_of(self.visual@),
            insert: table_of(self.insert@),
            objects: objects_of(self.objects@),
        }
    }
}

impl Default for Keymap {
    fn default() -> (r: Self)
        ensures
            r.wf(),
            r@ == KeymapState::empty(),
    {
        Self::empty()
    }
}

impl Clone for Keymap {
    fn clone(&self) -> (r: Self)
        ensures
            self.wf() ==> r.wf(),
            r@ == self@,
    {
        let mut objects: Vec<(Key, TextObject)> = Vec::new();
        let mut i: usize = 0;
        while i < self.objects.len()
            invariant
                i <= self.objects.len(),
                objects@ == self.objects@.take(i as int),
            decreases self.objects.len() - i,
        {
            objects.push(self.objects[i]);
            i += 1;
            proof {
                assert(self.objects@.take(i as int) =~= self.objects@.take(i - 1).push(
                    self.objects@[i - 1],
                ));
            }
        }
        proof {
            assert(self.objects@.take(self.objects@.len() as int) =~= self.objects@);
        }
        Self {
            normal: clone_entries(&self.normal),
            operator: clone_entries(&self.operator),
            visual: clone_entries(&self.visual),
            insert: clone_entries(&self.insert),
            objects,
        }
    }
}

impl Keymap {
    /// What every keymap keeps: no path means two things; see
    /// [`KeymapState::wf`].
    pub closed spec fn wf(&self) -> bool {
        &&& apart(self.normal@)
        &&& apart(self.operator@)
        &&& apart(self.visual@)
        &&& apart(self.insert@)
    }

    /// No bindings at all. Build your own scheme on top.
    #[must_use]
    pub fn empty() -> (r: Self)
        ensures
            r.wf(),
            r@ == KeymapState::empty(),
    {
        Self {
            normal: Vec::new(),
            operator: Vec::new(),
            visual: Vec::new(),
            insert: Vec::new(),
            objects: Vec::new(),
        }
    }

    fn put(&mut self, layer: Layer, sequence: Vec<Key>, binding: Binding)
        requires
            old(self).wf(),
            sequence@.len() > 0,
        ensures
            final(self).wf(),
            final(self)@ == old(self)@.bound(layer, sequence@, binding@),
    {
        match layer {
            Layer::Normal => bind_in(&mut self.normal, sequence, binding),
            Layer::Operator => bind_in(&mut self.operator, sequence, binding),
            Layer::Visual => bind_in(&mut self.visual, sequence, binding),
            Layer::Insert => bind_in(&mut self.insert, sequence, binding),
        }
    }

    fn put_one(&mut self, layer: Layer, key: Key, binding: Binding)
        requires
            old(self).wf(),
        ensures
            final(self).wf(),
            final(self)@ == old(self)@.bound(layer, seq![key], binding@),
    {
        let sequence: Vec<Key> = vec![key];
        assert(sequence@ =~= seq![key]);
        self.put(layer, sequence, binding);
    }

    fn put_two(&mut self, layer: Layer, first: Key, second: Key, binding: Binding)
        requires
            old(self).wf(),
        ensures
            final(self).wf(),
            final(self)@ == old(self)@.bound(layer, seq![first, second], binding@),
    {
        let sequence: Vec<Key> = vec![first, second];
        assert(sequence@ =~= seq![first, second]);
        self.put(layer, sequence, binding);
    }

    fn put_object(&mut self, key: Key, object: TextObject)
        requires
            old(self).wf(),
        ensures
            final(self).wf(),
            final(self)@ == old(self)@.object_bound(key, object),
    {
        self.objects.push((key, object));
        proof {
            assert(self.objects@.drop_last() =~= old(self).objects@);
        }
    }

    /// Bind a key sequence.
    ///
    /// Overwrites whatever occupied that path, including a whole subtree: binding
    /// `g` discards any existing `gg`.
    pub fn bind(&mut self, layer: Layer, sequence: &[Key], binding: Binding) -> (r: &mut Self)
        requires
            old(self).wf(),
            sequence@.len() > 0,
        ensures
            r.wf(),
            r@ == old(self)@.bound(layer, sequence@, binding@),
            *final(self) == *final(r),
    {
        self.put(layer, clone_keys(sequence), binding);
        self
    }

    /// Bind a sequence written in vi notation.
    pub fn bind_spec(&mut self, layer: Layer, spec: &str, binding: Binding) -> (r: &mut Self)
        requires
            old(self).wf(),
            key::parsed_keys(spec@) is Ok,
            key::parsed_keys(spec@)->Ok_0.len() > 0,
        ensures
            r.wf(),
            r@ == old(self)@.bound(layer, key::parsed_keys(spec@)->Ok_0, binding@),
            *final(self) == *final(r),
    {
        match key::keys(spec) {
            Ok(sequence) => {
                self.put(layer, sequence, binding);
            },
            Err(_) => {
                assert(false);
            },
        }
        self
    }

    /// Bind a sequence written in vi notation, or say why it is not one.
    ///
    /// An empty sequence binds nothing.
    pub fn try_bind_spec(&mut self, layer: Layer, spec: &str, binding: Binding) -> (r: Result<
        (),
        ParseError,
    >)
        requires
            old(self).wf(),
        ensures
            final(self).wf(),
            match key::parsed_keys(spec@) {
                Ok(ks) => r is Ok && final(self)@ == if ks.len() > 0 {
                    old(self)@.bound(layer, ks, binding@)
                } else {
                    old(self)@
                },
                Err(f) => r is Err && r->Err_0@ == f && final(self)@ == old(self)@,
            },
    {
        match key::keys(spec) {
            Ok(sequence) => {
                if sequence.len() > 0 {
                    self.put(layer, sequence, binding);
                }
                Ok(())
            },
            Err(e) => Err(e),
        }
    }

    /// Remove a binding, and any subtree beneath it.
    pub fn unbind(&mut self, layer: Layer, sequence: &[Key]) -> (r: &mut Self)
        requires
            old(self).wf(),
        ensures
            r.wf(),
            r@ == old(self)@.unbound(layer, sequence@),
            *final(self) == *final(r),
    {
        let ghost f = |s: Seq<Key>| !sequence@.is_prefix_of(s);
        let ghost g = |s: Seq<Key>|
            !(sequence@.is_prefix_of(s) || (false && s.is_prefix_of(sequence@)));
        proof {
            let t = self@.layer(layer);
            assert(t.restrict(t.dom().filter(f)) =~= t.restrict(t.dom().filter(g)));
        }
        match layer {
            Layer::Normal => {
                self.normal = without(&self.normal, sequence, false);
            },
            Layer::Operator => {
                self.operator = without(&self.operator, sequence, false);
            },
            Layer::Visual => {
                self.visual = without(&self.visual, sequence, false);
            },
            Layer::Insert => {
                self.insert = without(&self.insert, sequence, false);
            },
        }
        self
    }

    fn walk_layer(&self, layer: Layer, path: &[Key]) -> (r: Walk)
        requires
            self.wf(),
        ensures
            r@ == walk_of(self@.layer(layer), path@),
    {
        match layer {
            Layer::Normal => walk(&self.normal, path),
            Layer::Operator => walk(&self.operator, path),
            Layer::Visual => walk(&self.visual, path),
            Layer::Insert => walk(&self.insert, path),
        }
    }

    /// Walk `path` through `layer`, applying its fallback rules.
    ///
    /// A layer that produces neither a binding nor a prefix defers to its fallback,
    /// so `Layer::Visual` inherits every normal-mode motion while still being able
    /// to shadow individual keys.
    #[must_use]
    pub fn walk(&self, layer: Layer, path: &[Key]) -> (r: Walk)
        requires
            self.wf(),
        ensures
            r@ == self@.walked(layer, path@),
    {
        match self.walk_layer(layer, path) {
            Walk::Unbound => match layer.fallback() {
                Some(next) => self.walk_layer(next, path),
                None => Walk::Unbound,
            },
            found => found,
        }
    }

    /// The text object a key selects after `i` or `a`.
    #[must_use]
    pub fn object(&self, key: Key) -> (r: Option<TextObject>)
        ensures
            r == self@.object_of(key),
    {
        let mut i: usize = self.objects.len();
        while i > 0
            invariant
                i <= self.objects.len(),
                forall|j: int| i <= j < self.objects.len() ==> (#[trigger] self.objects@[j]).0
                    != key,
            decreases i,
        {
            i -= 1;
            if self.objects[i].0 == key {
                proof {
                    lemma_object(self.objects@, i as int);
                }
                return Some(self.objects[i].1);
            }
        }
        proof {
            lemma_no_object(self.objects@, key);
        }
        None
    }

    /// Let a key select a text object after `i` or `a`.
    pub fn bind_object(&mut self, key: Key, object: TextObject) -> (r: &mut Self)
        requires
            old(self).wf(),
        ensures
            r.wf(),
            r@ == old(self)@.object_bound(key, object),
            *final(self) == *final(r),
    {
        self.put_object(key, object);
        self
    }
}

/// Every keymap is unambiguous: in no layer does a bound sequence continue
/// another.
pub proof fn keymaps_are_unambiguous(map: &Keymap)
    requires
        map.wf(),
    ensures
        map@.wf(),
{
    lemma_table(map.normal@);
    lemma_table(map.operator@);
    lemma_table(map.visual@);
    lemma_table(map.insert@);
}

/// Convenience for hosts: is this key a plain digit usable as a count?
#[must_use]
pub fn is_count_digit(key: Key) -> (r: bool)
    ensures
        r == (key.digit() is Some),
{
    match key.code {
        KeyCode::Char(ch) => '0' <= ch && ch <= '9' && key.mods.is_empty(),
        _ => false,
    }
}

// ---------------------------------------------------------------------------
// what binding promises
// ---------------------------------------------------------------------------

/// A sequence just bound leads to its binding, what continues it is unbound, and
/// what it continues is a prefix.
pub proof fn binding_takes_its_path(
    m: KeymapState,
    layer: Layer,
    sequence: Seq<Key>,
    binding: Binding<Seq<char>>,
    path: Seq<Key>,
)
    requires
        sequence.len() > 0,
    ensures
        walk_of(m.bound(layer, sequence, binding).layer(layer), sequence) == Walk::Bound(
            binding,
        ),
        sequence.is_prefix_of(path) && path != sequence ==> walk_of(
            m.bound(layer, sequence, binding).layer(layer),
            path,
        ) == Walk::<Seq<char>>::Unbound,
        path.is_prefix_of(sequence) && path != sequence ==> walk_of(
            m.bound(layer, sequence, binding).layer(layer),
            path,
        ) == Walk::<Seq<char>>::Prefix,
{
    let t = m.bound(layer, sequence, binding).layer(layer);
    if sequence.is_prefix_of(path) && path != sequence {
        assert(!t.dom().contains(path)) by {
            if t.dom().contains(path) {
                assert(related(path, sequence));
            }
        }
        assert forall|s: Seq<Key>| #[trigger] t.dom().contains(s) implies !path.is_prefix_of(
            s,
        ) by {
            if path.is_prefix_of(s) {
                assert(sequence.is_prefix_of(s)) by {
                    assert(sequence =~= s.subrange(0, sequence.len() as int)) by {
                        assert forall|i: int| 0 <= i < sequence.len() implies sequence[i]
                            == s[i] by {
                            assert(path[i] == s.subrange(0, path.len() as int)[i]);
                            assert(sequence[i] == path.subrange(0, sequence.len() as int)[i]);
                        }
                    }
                }
                if s != sequence {
                    assert(related(s, sequence));
                } else {
                    assert(path.len() <= sequence.len());
                    assert(path =~= sequence) by {
                        assert forall|i: int| 0 <= i < path.len() implies path[i]
                            == sequence[i] by {
                            assert(path[i] == s.subrange(0, path.len() as int)[i]);
                        }
                    }
                }
            }
        }
    }
    if path.is_prefix_of(sequence) && path != sequence {
        assert(!t.dom().contains(path)) by {
            if t.dom().contains(path) {
                assert(related(path, sequence));
            }
        }
        assert(t.dom().contains(sequence));
    }
}

/// Binding a sequence leaves the bindings that stand apart from it alone.
pub proof fn binding_leaves_others(
    m: KeymapState,
    layer: Layer,
    sequence: Seq<Key>,
    binding: Binding<Seq<char>>,
    other: Seq<Key>,
)
    requires
        !related(other, sequence),
    ensures
        m.bound(layer, sequence, binding).layer(layer).dom().contains(other) == m.layer(
            layer,
        ).dom().contains(other),
        m.layer(layer).dom().contains(other) ==> m.bound(layer, sequence, binding).layer(
            layer,
        )[other] == m.layer(layer)[other],
{
    if other == sequence {
        assert(other.subrange(0, other.len() as int) =~= other);
    }
}

/// After unbinding a sequence, neither it nor anything that continues it leads
/// anywhere in that layer.
pub proof fn unbinding_clears_the_subtree(
    m: KeymapState,
    layer: Layer,
    sequence: Seq<Key>,
    path: Seq<Key>,
)
    requires
        sequence.len() > 0,
        sequence.is_prefix_of(path),
    ensures
        walk_of(m.unbound(layer, sequence).layer(layer), path) == Walk::<Seq<char>>::Unbound,
{
    let t = m.unbound(layer, sequence).layer(layer);
    assert forall|s: Seq<Key>| #[trigger] t.dom().contains(s) implies !path.is_prefix_of(s) by {
        if path.is_prefix_of(s) {
            assert(sequence =~= s.subrange(0, sequence.len() as int)) by {
                assert forall|i: int| 0 <= i < sequence.len() implies sequence[i] == s[i] by {
                    assert(path[i] == s.subrange(0, path.len() as int)[i]);
                    assert(sequence[i] == path.subrange(0, sequence.len() as int)[i]);
                }
            }
        }
    }
    assert(path.len() > 0);
}

/// A path the operator or visual layer does not know leads where it leads in the
/// normal layer.
pub proof fn layers_fall_back(m: KeymapState, layer: Layer, path: Seq<Key>)
    requires
        layer == Layer::Operator || layer == Layer::Visual,
        walk_of(m.layer(layer), path) == Walk::<Seq<char>>::Unbound,
    ensures
        m.walked(layer, path) == m.walked(Layer::Normal, path),
{
}

// ---------------------------------------------------------------------------
// the default scheme
// ---------------------------------------------------------------------------

/// Motions, shared by every command layer.
pub open spec fn vim_motions(m: KeymapState) -> KeymapState {
    let m = m.bound(Layer::Normal, seq![key::plain('h')], Binding::Motion(Motion::Left));
    let m = m.bound(Layer::Normal, seq![key::plain('l')], Binding::Motion(Motion::Right));
    let m = m.bound(Layer::Normal, seq![key::plain(' ')], Binding::Motion(Motion::Right));
    let m = m.bound(Layer::Normal, seq![key::plain('j')], Binding::Motion(Motion::Down));
    let m = m.bound(Layer::Normal, seq![key::plain('k')], Binding::Motion(Motion::Up));
    let m = m.bound(Layer::Normal, seq![(Key { code: KeyCode::Left, mods: Mods::NONE })], Binding::Motion(Motion::Left));
    let m = m.bound(Layer::Normal, seq![(Key { code: KeyCode::Right, mods: Mods::NONE })], Binding::Motion(Motion::Right));
    let m = m.bound(Layer::Normal, seq![(Key { code: KeyCode::Down, mods: Mods::NONE })], Binding::Motion(Motion::Down));
    let m = m.bound(Layer::Normal, seq![(Key { code: KeyCode::Up, mods: Mods::NONE })], Binding::Motion(Motion::Up));
    let m = m.bound(Layer::Normal, seq![key::plain('0')], Binding::Motion(Motion::FirstColumn));
    let m = m.bound(Layer::Normal, seq![(Key { code: KeyCode::Home, mods: Mods::NONE })], Binding::Motion(Motion::FirstColumn));
    let m = m.bound(Layer::Normal, seq![key::plain('^')], Binding::Motion(Motion::FirstNonBlank));
    let m = m.bound(Layer::Normal, seq![key::plain('$')], Binding::Motion(Motion::LastColumn));
    let m = m.bound(Layer::Normal, seq![(Key { code: KeyCode::End, mods: Mods::NONE })], Binding::Motion(Motion::LastColumn));
    let m = m.bound(Layer::Normal, seq![key::plain('w')], Binding::Motion(Motion::WordForward { big: false }));
    let m = m.bound(Layer::Normal, seq![key::plain('W')], Binding::Motion(Motion::WordForward { big: true }));
    let m = m.bound(Layer::Normal, seq![key::plain('b')], Binding::Motion(Motion::WordBackward { big: false }));
    let m = m.bound(Layer::Normal, seq![key::plain('B')], Binding::Motion(Motion::WordBackward { big: true }));
    let m = m.bound(Layer::Normal, seq![key::plain('e')], Binding::Motion(Motion::WordEnd { big: false }));
    let m = m.bound(Layer::Normal, seq![key::plain('E')], Binding::Motion(Motion::WordEnd { big: true }));
    m
}

/// Motions that cross rows, and searches.
pub open spec fn vim_jumps(m: KeymapState) -> KeymapState {
    let m = m.bound(Layer::Normal, seq![key::plain('G')], Binding::Motion(Motion::GotoRow));
    let m = m.bound(Layer::Normal, seq![key::plain('g'), key::plain('g')], Binding::Motion(Motion::GotoFirstRow));
    let m = m.bound(Layer::Normal, seq![key::plain('%')], Binding::Motion(Motion::MatchPair));
    let m = m.bound(Layer::Normal, seq![key::plain('H')], Binding::Motion(Motion::ScreenTop));
    let m = m.bound(Layer::Normal, seq![key::plain('M')], Binding::Motion(Motion::ScreenMiddle));
    let m = m.bound(Layer::Normal, seq![key::plain('L')], Binding::Motion(Motion::ScreenBottom));
    let m = m.bound(Layer::Normal, seq![key::plain(';')], Binding::Motion(Motion::RepeatFind { reverse: false }));
    let m = m.bound(Layer::Normal, seq![key::plain(',')], Binding::Motion(Motion::RepeatFind { reverse: true }));
    let m = m.bound(Layer::Normal, seq![key::plain('n')], Binding::Motion(Motion::RepeatSearch { reverse: false }));
    let m = m.bound(Layer::Normal, seq![key::plain('N')], Binding::Motion(Motion::RepeatSearch { reverse: true }));
    let m = m.bound(Layer::Normal, seq![key::plain('/')], Binding::Search { backward: false });
    let m = m.bound(Layer::Normal, seq![key::plain('?')], Binding::Search { backward: true });
    m
}

/// Bindings that need one more key before they mean anything.
pub open spec fn vim_awaits(m: KeymapState) -> KeymapState {
    let m = m.bound(Layer::Normal, seq![key::plain('f')], Binding::Await(AwaitChar::Find { backward: false, till: false }));
    let m = m.bound(Layer::Normal, seq![key::plain('F')], Binding::Await(AwaitChar::Find { backward: true, till: false }));
    let m = m.bound(Layer::Normal, seq![key::plain('t')], Binding::Await(AwaitChar::Find { backward: false, till: true }));
    let m = m.bound(Layer::Normal, seq![key::plain('T')], Binding::Await(AwaitChar::Find { backward: true, till: true }));
    let m = m.bound(Layer::Normal, seq![key::plain('m')], Binding::Await(AwaitChar::SetMark));
    let m = m.bound(Layer::Normal, seq![key::plain('`')], Binding::Await(AwaitChar::GotoMark { exact: true }));
    let m = m.bound(Layer::Normal, seq![key::plain('\'')], Binding::Await(AwaitChar::GotoMark { exact: false }));
    let m = m.bound(Layer::Normal, seq![key::plain('r')], Binding::Await(AwaitChar::ReplaceChar));
    let m = m.bound(Layer::Normal, seq![key::plain('q')], Binding::Await(AwaitChar::RecordMacro));
    let m = m.bound(Layer::Normal, seq![key::plain('@')], Binding::Await(AwaitChar::PlayMacro));
    m
}

/// Operators. The bare second halves are bound while an operator is pending, so that
/// `gUU` doubles as `gUgU` does. `D` and `C` are `d$` and `c$` as whole commands, which
/// is what lets them take a count.
pub open spec fn vim_operators(m: KeymapState) -> KeymapState {
    let m = m.bound(Layer::Normal, seq![key::plain('d')], Binding::Operator(Operator::Delete));
    let m = m.bound(Layer::Normal, seq![key::plain('c')], Binding::Operator(Operator::Change));
    let m = m.bound(Layer::Normal, seq![key::plain('y')], Binding::Operator(Operator::Yank));
    let m = m.bound(Layer::Normal, seq![key::plain('>')], Binding::Operator(Operator::ShiftRight));
    let m = m.bound(Layer::Normal, seq![key::plain('<')], Binding::Operator(Operator::ShiftLeft));
    let m = m.bound(Layer::Normal, seq![key::plain('g'), key::plain('u')], Binding::Operator(Operator::Lower));
    let m = m.bound(Layer::Normal, seq![key::plain('g'), key::plain('U')], Binding::Operator(Operator::Upper));
    let m = m.bound(Layer::Normal, seq![key::plain('g'), key::plain('~')], Binding::Operator(Operator::SwapCase));
    let m = m.bound(Layer::Operator, seq![key::plain('u')], Binding::Operator(Operator::Lower));
    let m = m.bound(Layer::Operator, seq![key::plain('U')], Binding::Operator(Operator::Upper));
    let m = m.bound(Layer::Operator, seq![key::plain('~')], Binding::Operator(Operator::SwapCase));
    let m = m.bound(Layer::Normal, seq![key::plain('D')], Binding::Command(Command::Operate { operator: Operator::Delete, target: Target::Motion(Motion::LastColumn) }));
    let m = m.bound(Layer::Normal, seq![key::plain('C')], Binding::Command(Command::Operate { operator: Operator::Change, target: Target::Motion(Motion::LastColumn) }));
    m
}

/// Mode changes.
pub open spec fn vim_modes(m: KeymapState) -> KeymapState {
    let m = m.bound(Layer::Normal, seq![key::plain('i')], Binding::Command(Command::EnterInsert(InsertAt::Cursor)));
    let m = m.bound(Layer::Normal, seq![key::plain('a')], Binding::Command(Command::EnterInsert(InsertAt::After)));
    let m = m.bound(Layer::Normal, seq![key::plain('I')], Binding::Command(Command::EnterInsert(InsertAt::FirstNonBlank)));
    let m = m.bound(Layer::Normal, seq![key::plain('A')], Binding::Command(Command::EnterInsert(InsertAt::EndOfRow)));
    let m = m.bound(Layer::Normal, seq![key::plain('o')], Binding::Command(Command::EnterInsert(InsertAt::RowBelow)));
    let m = m.bound(Layer::Normal, seq![key::plain('O')], Binding::Command(Command::EnterInsert(InsertAt::RowAbove)));
    let m = m.bound(Layer::Normal, seq![key::plain('v')], Binding::Command(Command::EnterVisual(VisualKind::Char)));
    let m = m.bound(Layer::Normal, seq![key::plain('V')], Binding::Command(Command::EnterVisual(VisualKind::Line)));
    let m = m.bound(Layer::Normal, seq![key::plain('R')], Binding::Command(Command::EnterReplace));
    let m = m.bound(Layer::Normal, seq![(Key { code: KeyCode::Esc, mods: Mods::NONE })], Binding::Command(Command::EnterNormal));
    m
}

/// Simple edits, history and repetition.
pub open spec fn vim_edits(m: KeymapState) -> KeymapState {
    let m = m.bound(Layer::Normal, seq![key::plain('x')], Binding::Command(Command::DeleteChar { before: false }));
    let m = m.bound(Layer::Normal, seq![(Key { code: KeyCode::Delete, mods: Mods::NONE })], Binding::Command(Command::DeleteChar { before: false }));
    let m = m.bound(Layer::Normal, seq![key::plain('X')], Binding::Command(Command::DeleteChar { before: true }));
    let m = m.bound(Layer::Normal, seq![key::plain('J')], Binding::Command(Command::JoinRows));
    let m = m.bound(Layer::Normal, seq![key::plain('p')], Binding::Command(Command::Put { before: false }));
    let m = m.bound(Layer::Normal, seq![key::plain('P')], Binding::Command(Command::Put { before: true }));
    let m = m.bound(Layer::Normal, seq![key::plain('~')], Binding::Command(Command::SwapCase));
    let m = m.bound(Layer::Normal, seq![key::plain('u')], Binding::Command(Command::Undo));
    let m = m.bound(Layer::Normal, seq![(Key { code: KeyCode::Char('r'), mods: Mods::CTRL })], Binding::Command(Command::Redo));
    let m = m.bound(Layer::Normal, seq![(Key { code: KeyCode::Char('o'), mods: Mods::CTRL })], Binding::Command(Command::JumpBack));
    let m = m.bound(Layer::Normal, seq![(Key { code: KeyCode::Char('i'), mods: Mods::CTRL })], Binding::Command(Command::JumpForward));
    let m = m.bound(Layer::Normal, seq![key::plain('.')], Binding::Command(Command::Repeat));
    m
}

/// Viewport movements and prompts.
pub open spec fn vim_scrolls(m: KeymapState) -> KeymapState {
    let m = m.bound(Layer::Normal, seq![(Key { code: KeyCode::Char('d'), mods: Mods::CTRL })], Binding::Command(Command::Scroll(Scroll::HalfPageDown)));
    let m = m.bound(Layer::Normal, seq![(Key { code: KeyCode::Char('u'), mods: Mods::CTRL })], Binding::Command(Command::Scroll(Scroll::HalfPageUp)));
    let m = m.bound(Layer::Normal, seq![(Key { code: KeyCode::Char('f'), mods: Mods::CTRL })], Binding::Command(Command::Scroll(Scroll::PageDown)));
    let m = m.bound(Layer::Normal, seq![(Key { code: KeyCode::Char('b'), mods: Mods::CTRL })], Binding::Command(Command::Scroll(Scroll::PageUp)));
    let m = m.bound(Layer::Normal, seq![key::plain('z'), key::plain('z')], Binding::Command(Command::Scroll(Scroll::Center)));
    let m = m.bound(Layer::Normal, seq![key::plain('z'), key::plain('t')], Binding::Command(Command::Scroll(Scroll::Top)));
    let m = m.bound(Layer::Normal, seq![key::plain('z'), key::plain('b')], Binding::Command(Command::Scroll(Scroll::Bottom)));
    let m = m.bound(Layer::Normal, seq![key::plain(':')], Binding::Command(Command::CommandPrompt));
    m
}

/// Operator-pending and visual: `i`/`a` become object scopes. Over a selection, case
/// keys are case changes, not undo and not a one-character swap.
pub open spec fn vim_selections(m: KeymapState) -> KeymapState {
    let m = m.bound(Layer::Operator, seq![key::plain('i')], Binding::ObjectScope(ObjectScope::Inner));
    let m = m.bound(Layer::Operator, seq![key::plain('a')], Binding::ObjectScope(ObjectScope::Around));
    let m = m.bound(Layer::Visual, seq![key::plain('i')], Binding::ObjectScope(ObjectScope::Inner));
    let m = m.bound(Layer::Visual, seq![key::plain('a')], Binding::ObjectScope(ObjectScope::Around));
    let m = m.bound(Layer::Visual, seq![key::plain('x')], Binding::Operator(Operator::Delete));
    let m = m.bound(Layer::Visual, seq![key::plain('s')], Binding::Operator(Operator::Change));
    let m = m.bound(Layer::Visual, seq![key::plain('u')], Binding::Operator(Operator::Lower));
    let m = m.bound(Layer::Visual, seq![key::plain('U')], Binding::Operator(Operator::Upper));
    let m = m.bound(Layer::Visual, seq![key::plain('~')], Binding::Operator(Operator::SwapCase));
    let m = m.bound(Layer::Visual, seq![key::plain('v')], Binding::Command(Command::EnterVisual(VisualKind::Char)));
    let m = m.bound(Layer::Visual, seq![key::plain('V')], Binding::Command(Command::EnterVisual(VisualKind::Line)));
    m
}

/// Insert mode.
pub open spec fn vim_inserts(m: KeymapState) -> KeymapState {
    let m = m.bound(Layer::Insert, seq![(Key { code: KeyCode::Esc, mods: Mods::NONE })], Binding::Command(Command::EnterNormal));
    let m = m.bound(Layer::Insert, seq![(Key { code: KeyCode::Char('c'), mods: Mods::CTRL })], Binding::Command(Command::EnterNormal));
    let m = m.bound(Layer::Insert, seq![(Key { code: KeyCode::Enter, mods: Mods::NONE })], Binding::Command(Command::InsertNewline));
    let m = m.bound(Layer::Insert, seq![(Key { code: KeyCode::Backspace, mods: Mods::NONE })], Binding::Command(Command::DeleteBack));
    let m = m.bound(Layer::Insert, seq![(Key { code: KeyCode::Char('w'), mods: Mods::CTRL })], Binding::Command(Command::DeleteWordBack));
    let m = m.bound(Layer::Insert, seq![(Key { code: KeyCode::Tab, mods: Mods::NONE })], Binding::Command(Command::InsertText('\t')));
    let m = m.bound(Layer::Insert, seq![(Key { code: KeyCode::Left, mods: Mods::NONE })], Binding::Command(Command::Move(Motion::Left)));
    let m = m.bound(Layer::Insert, seq![(Key { code: KeyCode::Right, mods: Mods::NONE })], Binding::Command(Command::Move(Motion::Right)));
    let m = m.bound(Layer::Insert, seq![(Key { code: KeyCode::Up, mods: Mods::NONE })], Binding::Command(Command::Move(Motion::Up)));
    let m = m.bound(Layer::Insert, seq![(Key { code: KeyCode::Down, mods: Mods::NONE })], Binding::Command(Command::Move(Motion::Down)));
    m
}

/// Text objects.
pub open spec fn vim_objects(m: KeymapState) -> KeymapState {
    let m = m.object_bound(key::plain('w'), TextObject::Word { big: false });
    let m = m.object_bound(key::plain('W'), TextObject::Word { big: true });
    let m = m.object_bound(key::plain('p'), TextObject::Paragraph);
    let m = m.object_bound(key::plain('('), TextObject::Delimited { open: '(', close: ')' });
    let m = m.object_bound(key::plain(')'), TextObject::Delimited { open: '(', close: ')' });
    let m = m.object_bound(key::plain('b'), TextObject::Delimited { open: '(', close: ')' });
    let m = m.object_bound(key::plain('{'), TextObject::Delimited { open: '{', close: '}' });
    let m = m.object_bound(key::plain('}'), TextObject::Delimited { open: '{', close: '}' });
    let m = m.object_bound(key::plain('B'), TextObject::Delimited { open: '{', close: '}' });
    let m = m.object_bound(key::plain('['), TextObject::Delimited { open: '[', close: ']' });
    let m = m.object_bound(key::plain(']'), TextObject::Delimited { open: '[', close: ']' });
    let m = m.object_bound(key::plain('<'), TextObject::Delimited { open: '<', close: '>' });
    let m = m.object_bound(key::plain('>'), TextObject::Delimited { open: '<', close: '>' });
    let m = m.object_bound(key::plain('"'), TextObject::Quoted('"'));
    let m = m.object_bound(key::plain('\''), TextObject::Quoted('\''));
    let m = m.object_bound(key::plain('`'), TextObject::Quoted('`'));
    m
}

/// The default scheme: every binding of it, in the order they are made.
#[verifier::opaque]
pub open spec fn vim_state() -> KeymapState {
    let m = KeymapState::empty();
    let m = vim_motions(m);
    let m = vim_jumps(m);
    let m = vim_awaits(m);
    let m = vim_operators(m);
    let m = vim_modes(m);
    let m = vim_edits(m);
    let m = vim_scrolls(m);
    let m = vim_selections(m);
    let m = vim_inserts(m);
    vim_objects(m)
}

impl Keymap {
    fn add_motions(&mut self)
        requires
            old(self).wf(),
        ensures
            final(self).wf(),
            final(self)@ == vim_motions(old(self)@),
    {
        self.put_one(Layer::Normal, Key::char('h'), Binding::Motion(Motion::Left));
        self.put_one(Layer::Normal, Key::char('l'), Binding::Motion(Motion::Right));
        self.put_one(Layer::Normal, Key::char(' '), Binding::Motion(Motion::Right));
        self.put_one(Layer::Normal, Key::char('j'), Binding::Motion(Motion::Down));
        self.put_one(Layer::Normal, Key::char('k'), Binding::Motion(Motion::Up));
        self.put_one(Layer::Normal, Key::code(KeyCode::Left), Binding::Motion(Motion::Left));
        self.put_one(Layer::Normal, Key::code(KeyCode::Right), Binding::Motion(Motion::Right));
        self.put_one(Layer::Normal, Key::code(KeyCode::Down), Binding::Motion(Motion::Down));
        self.put_one(Layer::Normal, Key::code(KeyCode::Up), Binding::Motion(Motion::Up));
        self.put_one(Layer::Normal, Key::char('0'), Binding::Motion(Motion::FirstColumn));
        self.put_one(Layer::Normal, Key::code(KeyCode::Home), Binding::Motion(Motion::FirstColumn));
        self.put_one(Layer::Normal, Key::char('^'), Binding::Motion(Motion::FirstNonBlank));
        self.put_one(Layer::Normal, Key::char('$'), Binding::Motion(Motion::LastColumn));
        self.put_one(Layer::Normal, Key::code(KeyCode::End), Binding::Motion(Motion::LastColumn));
        self.put_one(Layer::Normal, Key::char('w'), Binding::Motion(Motion::WordForward { big: false }));
        self.put_one(Layer::Normal, Key::char('W'), Binding::Motion(Motion::WordForward { big: true }));
        self.put_one(Layer::Normal, Key::char('b'), Binding::Motion(Motion::WordBackward { big: false }));
        self.put_one(Layer::Normal, Key::char('B'), Binding::Motion(Motion::WordBackward { big: true }));
        self.put_one(Layer::Normal, Key::char('e'), Binding::Motion(Motion::WordEnd { big: false }));
        self.put_one(Layer::Normal, Key::char('E'), Binding::Motion(Motion::WordEnd { big: true }));
    }

    fn add_jumps(&mut self)
        requires
            old(self).wf(),
        ensures
            final(self).wf(),
            final(self)@ == vim_jumps(old(self)@),
    {
        self.put_one(Layer::Normal, Key::char('G'), Binding::Motion(Motion::GotoRow));
        self.put_two(Layer::Normal, Key::char('g'), Key::char('g'), Binding::Motion(Motion::GotoFirstRow));
        self.put_one(Layer::Normal, Key::char('%'), Binding::Motion(Motion::MatchPair));
        self.put_one(Layer::Normal, Key::char('H'), Binding::Motion(Motion::ScreenTop));
        self.put_one(Layer::Normal, Key::char('M'), Binding::Motion(Motion::ScreenMiddle));
        self.put_one(Layer::Normal, Key::char('L'), Binding::Motion(Motion::ScreenBottom));
        self.put_one(Layer::Normal, Key::char(';'), Binding::Motion(Motion::RepeatFind { reverse: false }));
        self.put_one(Layer::Normal, Key::char(','), Binding::Motion(Motion::RepeatFind { reverse: true }));
        self.put_one(Layer::Normal, Key::char('n'), Binding::Motion(Motion::RepeatSearch { reverse: false }));
        self.put_one(Layer::Normal, Key::char('N'), Binding::Motion(Motion::RepeatSearch { reverse: true }));
        self.put_one(Layer::Normal, Key::char('/'), Binding::Search { backward: false });
        self.put_one(Layer::Normal, Key::char('?'), Binding::Search { backward: true });
    }

    fn add_awaits(&mut self)
        requires
            old(self).wf(),
        ensures
            final(self).wf(),
            final(self)@ == vim_awaits(old(self)@),
    {
        self.put_one(Layer::Normal, Key::char('f'), Binding::Await(AwaitChar::Find { backward: false, till: false }));
        self.put_one(Layer::Normal, Key::char('F'), Binding::Await(AwaitChar::Find { backward: true, till: false }));
        self.put_one(Layer::Normal, Key::char('t'), Binding::Await(AwaitChar::Find { backward: false, till: true }));
        self.put_one(Layer::Normal, Key::char('T'), Binding::Await(AwaitChar::Find { backward: true, till: true }));
        self.put_one(Layer::Normal, Key::char('m'), Binding::Await(AwaitChar::SetMark));
        self.put_one(Layer::Normal, Key::char('`'), Binding::Await(AwaitChar::GotoMark { exact: true }));
        self.put_one(Layer::Normal, Key::char('\''), Binding::Await(AwaitChar::GotoMark { exact: false }));
        self.put_one(Layer::Normal, Key::char('r'), Binding::Await(AwaitChar::ReplaceChar));
        self.put_one(Layer::Normal, Key::char('q'), Binding::Await(AwaitChar::RecordMacro));
        self.put_one(Layer::Normal, Key::char('@'), Binding::Await(AwaitChar::PlayMacro));
    }

    fn add_operators(&mut self)
        requires
            old(self).wf(),
        ensures
            final(self).wf(),
            final(self)@ == vim_operators(old(self)@),
    {
        self.put_one(Layer::Normal, Key::char('d'), Binding::Operator(Operator::Delete));
        self.put_one(Layer::Normal, Key::char('c'), Binding::Operator(Operator::Change));
        self.put_one(Layer::Normal, Key::char('y'), Binding::Operator(Operator::Yank));
        self.put_one(Layer::Normal, Key::char('>'), Binding::Operator(Operator::ShiftRight));
        self.put_one(Layer::Normal, Key::char('<'), Binding::Operator(Operator::ShiftLeft));
        self.put_two(Layer::Normal, Key::char('g'), Key::char('u'), Binding::Operator(Operator::Lower));
        self.put_two(Layer::Normal, Key::char('g'), Key::char('U'), Binding::Operator(Operator::Upper));
        self.put_two(Layer::Normal, Key::char('g'), Key::char('~'), Binding::Operator(Operator::SwapCase));
        self.put_one(Layer::Operator, Key::char('u'), Binding::Operator(Operator::Lower));
        self.put_one(Layer::Operator, Key::char('U'), Binding::Operator(Operator::Upper));
        self.put_one(Layer::Operator, Key::char('~'), Binding::Operator(Operator::SwapCase));
        self.put_one(Layer::Normal, Key::char('D'), Binding::Command(Command::Operate { operator: Operator::Delete, target: Target::Motion(Motion::LastColumn) }));
        self.put_one(Layer::Normal, Key::char('C'), Binding::Command(Command::Operate { operator: Operator::Change, target: Target::Motion(Motion::LastColumn) }));
    }

    fn add_modes(&mut self)
        requires
            old(self).wf(),
        ensures
            final(self).wf(),
            final(self)@ == vim_modes(old(self)@),
    {
        self.put_one(Layer::Normal, Key::char('i'), Binding::Command(Command::EnterInsert(InsertAt::Cursor)));
        self.put_one(Layer::Normal, Key::char('a'), Binding::Command(Command::EnterInsert(InsertAt::After)));
        self.put_one(Layer::Normal, Key::char('I'), Binding::Command(Command::EnterInsert(InsertAt::FirstNonBlank)));
        self.put_one(Layer::Normal, Key::char('A'), Binding::Command(Command::EnterInsert(InsertAt::EndOfRow)));
        self.put_one(Layer::Normal, Key::char('o'), Binding::Command(Command::EnterInsert(InsertAt::RowBelow)));
        self.put_one(Layer::Normal, Key::char('O'), Binding::Command(Command::EnterInsert(InsertAt::RowAbove)));
        self.put_one(Layer::Normal, Key::char('v'), Binding::Command(Command::EnterVisual(VisualKind::Char)));
        self.put_one(Layer::Normal, Key::char('V'), Binding::Command(Command::EnterVisual(VisualKind::Line)));
        self.put_one(Layer::Normal, Key::char('R'), Binding::Command(Command::EnterReplace));
        self.put_one(Layer::Normal, Key::code(KeyCode::Esc), Binding::Command(Command::EnterNormal));
    }

    fn add_edits(&mut self)
        requires
            old(self).wf(),
        ensures
            final(self).wf(),
            final(self)@ == vim_edits(old(self)@),
    {
        self.put_one(Layer::Normal, Key::char('x'), Binding::Command(Command::DeleteChar { before: false }));
        self.put_one(Layer::Normal, Key::code(KeyCode::Delete), Binding::Command(Command::DeleteChar { before: false }));
        self.put_one(Layer::Normal, Key::char('X'), Binding::Command(Command::DeleteChar { before: true }));
        self.put_one(Layer::Normal, Key::char('J'), Binding::Command(Command::JoinRows));
        self.put_one(Layer::Normal, Key::char('p'), Binding::Command(Command::Put { before: false }));
        self.put_one(Layer::Normal, Key::char('P'), Binding::Command(Command::Put { before: true }));
        self.put_one(Layer::Normal, Key::char('~'), Binding::Command(Command::SwapCase));
        self.put_one(Layer::Normal, Key::char('u'), Binding::Command(Command::Undo));
        self.put_one(Layer::Normal, Key::ctrl('r'), Binding::Command(Command::Redo));
        self.put_one(Layer::Normal, Key::ctrl('o'), Binding::Command(Command::JumpBack));
        self.put_one(Layer::Normal, Key::ctrl('i'), Binding::Command(Command::JumpForward));
        self.put_one(Layer::Normal, Key::char('.'), Binding::Command(Command::Repeat));
    }

    fn add_scrolls(&mut self)
        requires
            old(self).wf(),
        ensures
            final(self).wf(),
            final(self)@ == vim_scrolls(old(self)@),
    {
        self.put_one(Layer::Normal, Key::ctrl('d'), Binding::Command(Command::Scroll(Scroll::HalfPageDown)));
        self.put_one(Layer::Normal, Key::ctrl('u'), Binding::Command(Command::Scroll(Scroll::HalfPageUp)));
        self.put_one(Layer::Normal, Key::ctrl('f'), Binding::Command(Command::Scroll(Scroll::PageDown)));
        self.put_one(Layer::Normal, Key::ctrl('b'), Binding::Command(Command::Scroll(Scroll::PageUp)));
        self.put_two(Layer::Normal, Key::char('z'), Key::char('z'), Binding::Command(Command::Scroll(Scroll::Center)));
        self.put_two(Layer::Normal, Key::char('z'), Key::char('t'), Binding::Command(Command::Scroll(Scroll::Top)));
        self.put_two(Layer::Normal, Key::char('z'), Key::char('b'), Binding::Command(Command::Scroll(Scroll::Bottom)));
        self.put_one(Layer::Normal, Key::char(':'), Binding::Command(Command::CommandPrompt));
    }

    fn add_selections(&mut self)
        requires
            old(self).wf(),
        ensures
            final(self).wf(),
            final(self)@ == vim_selections(old(self)@),
    {
        self.put_one(Layer::Operator, Key::char('i'), Binding::ObjectScope(ObjectScope::Inner));
        self.put_one(Layer::Operator, Key::char('a'), Binding::ObjectScope(ObjectScope::Around));
        self.put_one(Layer::Visual, Key::char('i'), Binding::ObjectScope(ObjectScope::Inner));
        self.put_one(Layer::Visual, Key::char('a'), Binding::ObjectScope(ObjectScope::Around));
        self.put_one(Layer::Visual, Key::char('x'), Binding::Operator(Operator::Delete));
        self.put_one(Layer::Visual, Key::char('s'), Binding::Operator(Operator::Change));
        self.put_one(Layer::Visual, Key::char('u'), Binding::Operator(Operator::Lower));
        self.put_one(Layer::Visual, Key::char('U'), Binding::Operator(Operator::Upper));
        self.put_one(Layer::Visual, Key::char('~'), Binding::Operator(Operator::SwapCase));
        self.put_one(Layer::Visual, Key::char('v'), Binding::Command(Command::EnterVisual(VisualKind::Char)));
        self.put_one(Layer::Visual, Key::char('V'), Binding::Command(Command::EnterVisual(VisualKind::Line)));
    }

    fn add_inserts(&mut self)
        requires
            old(self).wf(),
        ensures
            final(self).wf(),
            final(self)@ == vim_inserts(old(self)@),
    {
        self.put_one(Layer::Insert, Key::code(KeyCode::Esc), Binding::Command(Command::EnterNormal));
        self.put_one(Layer::Insert, Key::ctrl('c'), Binding::Command(Command::EnterNormal));
        self.put_one(Layer::Insert, Key::code(KeyCode::Enter), Binding::Command(Command::InsertNewline));
        self.put_one(Layer::Insert, Key::code(KeyCode::Backspace), Binding::Command(Command::DeleteBack));
        self.put_one(Layer::Insert, Key::ctrl('w'), Binding::Command(Command::DeleteWordBack));
        self.put_one(Layer::Insert, Key::code(KeyCode::Tab), Binding::Command(Command::InsertText('\t')));
        self.put_one(Layer::Insert, Key::code(KeyCode::Left), Binding::Command(Command::Move(Motion::Left)));
        self.put_one(Layer::Insert, Key::code(KeyCode::Right), Binding::Command(Command::Move(Motion::Right)));
        self.put_one(Layer::Insert, Key::code(KeyCode::Up), Binding::Command(Command::Move(Motion::Up)));
        self.put_one(Layer::Insert, Key::code(KeyCode::Down), Binding::Command(Command::Move(Motion::Down)));
    }

    fn add_objects(&mut self)
        requires
            old(self).wf(),
        ensures
            final(self).wf(),
            final(self)@ == vim_objects(old(self)@),
    {
        self.put_object(Key::char('w'), TextObject::Word { big: false });
        self.put_object(Key::char('W'), TextObject::Word { big: true });
        self.put_object(Key::char('p'), TextObject::Paragraph);
        self.put_object(Key::char('('), TextObject::Delimited { open: '(', close: ')' });
        self.put_object(Key::char(')'), TextObject::Delimited { open: '(', close: ')' });
        self.put_object(Key::char('b'), TextObject::Delimited { open: '(', close: ')' });
        self.put_object(Key::char('{'), TextObject::Delimited { open: '{', close: '}' });
        self.put_object(Key::char('}'), TextObject::Delimited { open: '{', close: '}' });
        self.put_object(Key::char('B'), TextObject::Delimited { open: '{', close: '}' });
        self.put_object(Key::char('['), TextObject::Delimited { open: '[', close: ']' });
        self.put_object(Key::char(']'), TextObject::Delimited { open: '[', close: ']' });
        self.put_object(Key::char('<'), TextObject::Delimited { open: '<', close: '>' });
        self.put_object(Key::char('>'), TextObject::Delimited { open: '<', close: '>' });
        self.put_object(Key::char('"'), TextObject::Quoted('"'));
        self.put_object(Key::char('\''), TextObject::Quoted('\''));
        self.put_object(Key::char('`'), TextObject::Quoted('`'));
    }

    /// The default scheme.
    ///
    /// Covers the subset this core targets: modes, motions, operators, text
    /// objects, counts, dot-repeat, macros, marks, undo, jump navigation, search
    /// and ex commands. No named registers.
    #[must_use]
    pub fn vim() -> (r: Self)
        ensures
            r.wf(),
            r@ == vim_state(),
    {
        proof {
            reveal(vim_state);
        }
        let mut map: Self = Self::empty();
        map.add_motions();
        map.add_jumps();
        map.add_awaits();
        map.add_operators();
        map.add_modes();
        map.add_edits();
        map.add_scrolls();
        map.add_selections();
        map.add_inserts();
        map.add_objects();
        map
    }
}

// ---------------------------------------------------------------------------
// what the default scheme binds
// ---------------------------------------------------------------------------

/// Whether `key` alone leads to `binding` in `layer`.
pub open spec fn binds(
    m: KeymapState,
    layer: Layer,
    key: Key,
    binding: Binding<Seq<char>>,
) -> bool {
    m.layer(layer).dom().contains(seq![key]) && m.layer(layer)[seq![key]] == binding
}

/// Binding another key, or in another layer, keeps what a key leads to.
proof fn lemma_binds_kept(
    m: KeymapState,
    layer: Layer,
    key: Key,
    binding: Binding<Seq<char>>,
    at: Layer,
    sequence: Seq<Key>,
    other: Binding<Seq<char>>,
)
    requires
        binds(m, layer, key, binding),
        at != layer || (sequence.len() > 0 && sequence[0] != key),
    ensures
        binds(m.bound(at, sequence, other), layer, key, binding),
{
    if at == layer {
        let path = seq![key];
        if path.is_prefix_of(sequence) {
            assert(path[0] == sequence.subrange(0, 1)[0]);
        }
        if sequence.is_prefix_of(path) {
            assert(sequence[0] == path.subrange(0, sequence.len() as int)[0]);
        }
        binding_leaves_others(m, layer, sequence, other, path);
    }
}

/// A key just bound leads to its binding.
proof fn lemma_binds_now(m: KeymapState, layer: Layer, key: Key, binding: Binding<Seq<char>>)
    ensures
        binds(m.bound(layer, seq![key], binding), layer, key, binding),
{
}

/// A key that leads to a binding has the parser follow it there.
pub proof fn a_bound_key_is_walked(
    m: KeymapState,
    layer: Layer,
    key: Key,
    binding: Binding<Seq<char>>,
)
    requires
        binds(m, layer, key, binding),
    ensures
        m.walked(layer, seq![key]) == Walk::Bound(binding),
{
}

/// The bindings made after the simple edits keep those of keys they do not bind.
proof fn lemma_after_edits(m: KeymapState, key: Key, binding: Binding<Seq<char>>)
    requires
        binds(m, Layer::Normal, key, binding),
        key == key::plain('u') || key == key::plain('.') || key == (Key {
            code: KeyCode::Char('r'),
            mods: Mods::CTRL,
        }),
    ensures
        binds(
            vim_objects(vim_inserts(vim_selections(vim_scrolls(m)))),
            Layer::Normal,
            key,
            binding,
        ),
{
    assert forall|m: KeymapState, at: Layer, sequence: Seq<Key>, other: Binding<Seq<char>>|
        binds(m, Layer::Normal, key, binding) && (at != Layer::Normal || (sequence.len() > 0
            && sequence[0] != key)) implies binds(
        #[trigger] m.bound(at, sequence, other),
        Layer::Normal,
        key,
        binding,
    ) by {
        lemma_binds_kept(m, Layer::Normal, key, binding, at, sequence, other);
    }
    let a = vim_scrolls(m);
    assert(binds(a, Layer::Normal, key, binding));
    let b = vim_selections(a);
    assert(binds(b, Layer::Normal, key, binding));
    let c = vim_inserts(b);
    assert(binds(c, Layer::Normal, key, binding));
}

/// In the default scheme `u` undoes, `<C-r>` redoes and `.` repeats.
pub proof fn the_default_scheme_binds()
    ensures
        binds(
            vim_state(),
            Layer::Normal,
            key::plain('u'),
            Binding::Command(Command::Undo),
        ),
        binds(
            vim_state(),
            Layer::Normal,
            Key { code: KeyCode::Char('r'), mods: Mods::CTRL },
            Binding::Command(Command::Redo),
        ),
        binds(
            vim_state(),
            Layer::Normal,
            key::plain('.'),
            Binding::Command(Command::Repeat),
        ),
{
    reveal(vim_state);
    let m = vim_modes(
        vim_operators(vim_awaits(vim_jumps(vim_motions(KeymapState::empty())))),
    );
    let u = key::plain('u');
    let r = Key { code: KeyCode::Char('r'), mods: Mods::CTRL };
    let dot = key::plain('.');
    let undo = Binding::<Seq<char>>::Command(Command::Undo);
    let redo = Binding::<Seq<char>>::Command(Command::Redo);
    let repeat = Binding::<Seq<char>>::Command(Command::Repeat);
    assert forall|m: KeymapState, at: Layer, sequence: Seq<Key>, other: Binding<Seq<char>>|
        sequence.len() > 0 implies ({
        let n = #[trigger] m.bound(at, sequence, other);
        &&& binds(m, Layer::Normal, u, undo) && sequence[0] != u ==> binds(
            n,
            Layer::Normal,
            u,
            undo,
        )
        &&& binds(m, Layer::Normal, r, redo) && sequence[0] != r ==> binds(
            n,
            Layer::Normal,
            r,
            redo,
        )
    }) by {
        if binds(m, Layer::Normal, u, undo) && sequence[0] != u {
            lemma_binds_kept(m, Layer::Normal, u, undo, at, sequence, other);
        }
        if binds(m, Layer::Normal, r, redo) && sequence[0] != r {
            lemma_binds_kept(m, Layer::Normal, r, redo, at, sequence, other);
        }
    }
    assert forall|m: KeymapState, key: Key, binding: Binding<Seq<char>>| binds(
        #[trigger] m.bound(Layer::Normal, seq![key], binding),
        Layer::Normal,
        key,
        binding,
    ) by {
        lemma_binds_now(m, Layer::Normal, key, binding);
    }
    let e = vim_edits(m);
    assert(binds(e, Layer::Normal, u, undo));
    assert(binds(e, Layer::Normal, r, redo));
    assert(binds(e, Layer::Normal, dot, repeat));
    lemma_after_edits(e, u, undo);
    lemma_after_edits(e, r, redo);
    lemma_after_edits(e, dot, repeat);
}

/// In the default scheme `q` awaits the register to record into.
pub proof fn the_recording_key_awaits_a_register()
    ensures
        binds(
            vim_state(),
            Layer::Normal,
            key::plain('q'),
            Binding::Await(AwaitChar::RecordMacro),
        ),
{
    reveal(vim_state);
    let key = key::plain('q');
    let binding = Binding::<Seq<char>>::Await(AwaitChar::RecordMacro);
    assert forall|m: KeymapState, at: Layer, sequence: Seq<Key>, other: Binding<Seq<char>>|
        binds(m, Layer::Normal, key, binding) && (at != Layer::Normal || (sequence.len() > 0
            && sequence[0] != key)) implies binds(
        #[trigger] m.bound(at, sequence, other),
        Layer::Normal,
        key,
        binding,
    ) by {
        lemma_binds_kept(m, Layer::Normal, key, binding, at, sequence, other);
    }
    assert forall|m: KeymapState| binds(
        #[trigger] m.bound(Layer::Normal, seq![key], binding),
        Layer::Normal,
        key,
        binding,
    ) by {
        lemma_binds_now(m, Layer::Normal, key, binding);
    }
    let m = vim_awaits(vim_jumps(vim_motions(KeymapState::empty())));
    assert(binds(m, Layer::Normal, key, binding));
    let m = vim_operators(m);
    assert(binds(m, Layer::Normal, key, binding));
    let m = vim_modes(m);
    assert(binds(m, Layer::Normal, key, binding));
    let m = vim_edits(m);
    assert(binds(m, Layer::Normal, key, binding));
    let m = vim_scrolls(m);
    assert(binds(m, Layer::Normal, key, binding));
    let m = vim_selections(m);
    assert(binds(m, Layer::Normal, key, binding));
    let m = vim_inserts(m);
    assert(binds(m, Layer::Normal, key, binding));
}

/// Whether `binding` is one of the commands of insert mode.
pub open spec fn inserting(binding: Binding<Seq<char>>) -> bool {
    match binding {
        Binding::Command(command) => match command {
            Command::EnterNormal
            | Command::InsertNewline
            | Command::DeleteBack
            | Command::DeleteWordBack
            | Command::InsertText(_)
            | Command::Move(_) => true,
            _ => false,
        },
        _ => false,
    }
}

/// Whether `binding` has a meaning only over a selection.
pub open spec fn selecting(binding: Binding<Seq<char>>) -> bool {
    match binding {
        Binding::ObjectScope(_) | Binding::Operator(_) => true,
        Binding::Command(command) => command is EnterVisual,
        _ => false,
    }
}

/// Whether `binding` leaves the selection to operators: no command on its own acts on
/// it, and those that operate reach to the end of the row.
pub open spec fn modest(binding: Binding<Seq<char>>) -> bool {
    match binding {
        Binding::Command(command) => match command {
            Command::Operate { target, .. } => target == Target::<Seq<char>>::Motion(
                Motion::LastColumn,
            ),
            Command::SurroundSelection(_) => false,
            _ => true,
        },
        _ => true,
    }
}

/// What the layers of the default scheme are made of.
pub open spec fn layered(m: KeymapState) -> bool {
    &&& forall|path: Seq<Key>| #[trigger]
        m.insert.dom().contains(path) ==> path.len() == 1 && inserting(m.insert[path])
    &&& forall|path: Seq<Key>| #[trigger]
        m.visual.dom().contains(path) ==> path.len() == 1 && selecting(m.visual[path])
    &&& forall|path: Seq<Key>| #[trigger] m.normal.dom().contains(path) ==> modest(m.normal[path])
    &&& forall|path: Seq<Key>| #[trigger]
        m.operator.dom().contains(path) ==> modest(m.operator[path])
}

/// Whether a binding fits its layer.
spec fn fits(layer: Layer, sequence: Seq<Key>, binding: Binding<Seq<char>>) -> bool {
    match layer {
        Layer::Insert => sequence.len() == 1 && inserting(binding),
        Layer::Visual => sequence.len() == 1 && selecting(binding),
        Layer::Normal | Layer::Operator => modest(binding),
    }
}

proof fn lemma_layered(
    m: KeymapState,
    layer: Layer,
    sequence: Seq<Key>,
    binding: Binding<Seq<char>>,
)
    requires
        layered(m),
        fits(layer, sequence, binding),
    ensures
        layered(m.bound(layer, sequence, binding)),
{
}

/// The layers of the default scheme: insert mode binds only keys of its own, the
/// visual layer only what has a meaning over a selection, and no other layer binds a
/// command that acts on one.
pub proof fn the_default_scheme_is_layered()
    ensures
        layered(vim_state()),
{
    reveal(vim_state);
    assert forall|
        m: KeymapState,
        layer: Layer,
        sequence: Seq<Key>,
        binding: Binding<Seq<char>>,
    |
        layered(m) && fits(layer, sequence, binding) implies layered(
        #[trigger] m.bound(layer, sequence, binding),
    ) by {
        lemma_layered(m, layer, sequence, binding);
    }
    let m = KeymapState::empty();
    assert(layered(m));
    let m = vim_motions(m);
    assert(layered(m));
    let m = vim_jumps(m);
    assert(layered(m));
    let m = vim_awaits(m);
    assert(layered(m));
    let m = vim_operators(m);
    assert(layered(m));
    let m = vim_modes(m);
    assert(layered(m));
    let m = vim_edits(m);
    assert(layered(m));
    let m = vim_scrolls(m);
    assert(layered(m));
    let m = vim_selections(m);
    assert(layered(m));
    let m = vim_inserts(m);
    assert(layered(m));
    let n = vim_objects(m);
    assert(n == (KeymapState { objects: n.objects, ..m }));
}

} // verus!
