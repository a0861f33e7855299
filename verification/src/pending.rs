//! The pending-input parser: vi's command grammar.
//!
//! A table of key sequences alone cannot express vi's normal-mode syntax, because
//! counts and operators *compose* rather than sequence:
//!
//! ```text
//! [count] operator [count] motion | textobject
//! [count] command
//! ```
//!
//! So this type holds the compositional state (counts, a pending operator, a
//! pending object scope, a pending character argument, a search pattern being
//! typed) and defers the rest to [`Keymap`]. It touches no buffer, which makes the
//! whole grammar testable as string in, [`Command`] out.

use vstd::prelude::*;

use crate::command::{
    AwaitChar, Command, Find, Mode, Motion, ObjectScope, Operator, Target, TextObject,
};
use crate::key::{Key, KeyCode, Mods};
use crate::keymap;
use crate::keymap::{Binding, Keymap, KeymapState, Layer, Walk};

verus! {

/// What feeding one key produced.
#[derive(Debug, PartialEq, Eq)]
pub enum Resolution {
    /// A valid partial sequence. Show the keys as a `showcmd` hint if you like.
    Pending,
    /// A complete command.
    Command {
        command: Command,
        /// The effective count, `None` when the user gave none.
        ///
        /// Distinguishing `None` from `Some(1)` matters: `G` with no count goes to
        /// the last row, `1G` to the first.
        count: Option<usize>,
        /// Every key consumed, in order. This is what dot-repeat and macro
        /// recording store: replaying keys rather than re-executing commands is
        /// what makes both fall out of one mechanism.
        keys: Vec<Key>,
    },
    /// Not a valid sequence. State has been reset; the host may beep.
    Rejected { keys: Vec<Key> },
    /// `<Esc>` abandoned a partial sequence.
    Cancelled { keys: Vec<Key> },
}

/// What a [`Resolution`] says.
#[verifier::ext_equal]
pub enum Outcome {
    Pending,
    Command { command: Command<Seq<char>>, count: Option<usize>, keys: Seq<Key> },
    Rejected { keys: Seq<Key> },
    Cancelled { keys: Seq<Key> },
}

impl View for Resolution {
    type V = Outcome;

    open spec fn view(&self) -> Outcome {
        match *self {
            Resolution::Pending => Outcome::Pending,
            Resolution::Command { command, count, keys } => Outcome::Command {
                command: command@,
                count,
                keys: keys@,
            },
            Resolution::Rejected { keys } => Outcome::Rejected { keys: keys@ },
            Resolution::Cancelled { keys } => Outcome::Cancelled { keys: keys@ },
        }
    }
}

impl Clone for Resolution {
    fn clone(&self) -> (r: Self)
        ensures
            r@ == self@,
    {
        match self {
            Resolution::Pending => Resolution::Pending,
            Resolution::Command { command, count, keys } => Resolution::Command {
                command: command.clone(),
                count: *count,
                keys: keymap::clone_keys(keys.as_slice()),
            },
            Resolution::Rejected { keys } => Resolution::Rejected {
                keys: keymap::clone_keys(keys.as_slice()),
            },
            Resolution::Cancelled { keys } => Resolution::Cancelled {
                keys: keymap::clone_keys(keys.as_slice()),
            },
        }
    }
}

// ---------------------------------------------------------------------------
// the grammar
// ---------------------------------------------------------------------------

/// `n`, or the largest count where it is larger.
pub open spec fn saturated(n: int) -> usize {
    if n > usize::MAX {
        usize::MAX
    } else {
        n as usize
    }
}

/// `count` with one more digit.
pub open spec fn with_digit(count: Option<usize>, digit: u32) -> usize {
    match count {
        Some(n) => saturated(n * 10 + digit),
        None => digit as usize,
    }
}

/// Whether `c` names a mark that a user can set.
pub open spec fn is_mark(c: char) -> bool {
    'a' <= c && c <= 'z'
}

/// What a [`Pending`] has accumulated.
#[verifier::ext_equal]
pub struct PendingState {
    pub keys: Seq<Key>,
    /// Start of the partial path through the current layer's bindings.
    pub path_start: int,
    pub count_before: Option<usize>,
    pub count_after: Option<usize>,
    pub operator: Option<Operator>,
    pub scope: Option<ObjectScope>,
    pub awaiting: Option<AwaitChar>,
    /// A pattern being typed, and whether the search is backward.
    pub search: Option<(Seq<char>, bool)>,
}

impl PendingState {
    /// Nothing accumulated.
    pub open spec fn fresh() -> PendingState {
        PendingState {
            keys: Seq::empty(),
            path_start: 0,
            count_before: None,
            count_after: None,
            operator: None,
            scope: None,
            awaiting: None,
            search: None,
        }
    }

    /// Whether nothing but keys has been accumulated.
    pub open spec fn blank(self) -> bool {
        &&& self.count_before is None
        &&& self.count_after is None
        &&& self.operator is None
        &&& self.scope is None
        &&& self.awaiting is None
        &&& self.search is None
    }

    /// Whether the next key starts a fresh command.
    pub open spec fn idle(self) -> bool {
        self.path_start == self.keys.len() && self.blank()
    }

    /// What every parser keeps: the path is a suffix of the keys, all of them
    /// while nothing else has been accumulated, and a count is at least one.
    pub open spec fn wf(self) -> bool {
        &&& 0 <= self.path_start <= self.keys.len()
        &&& self.blank() ==> self.path_start == 0
        &&& self.count_before is Some ==> self.count_before->0 >= 1
        &&& self.count_after is Some ==> self.count_after->0 >= 1
    }

    /// The effective count: vi multiplies the two, so `2d3w` deletes six words.
    pub open spec fn count(self) -> Option<usize> {
        match (self.count_before, self.count_after) {
            (None, None) => None,
            (Some(n), None) => Some(n),
            (None, Some(m)) => Some(m),
            (Some(n), Some(m)) => Some(saturated(n * m)),
        }
    }

    /// A complete command, and nothing left over.
    pub open spec fn finished(self, command: Command<Seq<char>>) -> (PendingState, Outcome) {
        (
            PendingState::fresh(),
            Outcome::Command { command, count: self.count(), keys: self.keys },
        )
    }

    /// Not a valid sequence, and nothing left over.
    pub open spec fn rejected(self) -> (PendingState, Outcome) {
        (PendingState::fresh(), Outcome::Rejected { keys: self.keys })
    }

    /// A motion is a movement on its own, or an operator's target.
    pub open spec fn with_motion(self, motion: Motion<Seq<char>>) -> Command<Seq<char>> {
        match self.operator {
            Some(operator) => Command::Operate { operator, target: Target::Motion(motion) },
            None => Command::Move(motion),
        }
    }

    /// After the character a binding awaited.
    pub open spec fn await_resolved(self, awaiting: AwaitChar, ch: char) -> (
        PendingState,
        Outcome,
    ) {
        match awaiting {
            AwaitChar::Find { backward, till } => self.finished(
                self.with_motion(Motion::Find(Find { target: ch, backward, till })),
            ),
            AwaitChar::ReplaceChar if self.operator is None => self.finished(
                Command::ReplaceChar(ch),
            ),
            AwaitChar::RecordMacro if self.operator is None => self.finished(
                Command::RecordMacro(ch),
            ),
            AwaitChar::PlayMacro if self.operator is None => self.finished(Command::PlayMacro(ch)),
            AwaitChar::SetMark if self.operator is None && is_mark(ch) => self.finished(
                Command::SetMark(ch),
            ),
            AwaitChar::GotoMark { exact } if is_mark(ch) || ch == '\'' || ch == '`' => {
                self.finished(self.with_motion(Motion::Mark { name: ch, exact }))
            },
            _ => self.rejected(),
        }
    }

    /// After the key that selected a text object.
    pub open spec fn object_resolved(self, scope: ObjectScope, object: TextObject) -> (
        PendingState,
        Outcome,
    ) {
        match self.operator {
            Some(operator) => self.finished(
                Command::Operate { operator, target: Target::Object { scope, object } },
            ),
            None => self.finished(Command::SelectObject { scope, object }),
        }
    }

    /// After a key path led to a binding.
    pub open spec fn applied(self, binding: Binding<Seq<char>>, mode: Mode) -> (
        PendingState,
        Outcome,
    ) {
        let q = PendingState { path_start: self.keys.len() as int, ..self };
        match binding {
            Binding::Command(command) => if q.operator is Some {
                q.rejected()
            } else {
                q.finished(command)
            },
            Binding::Motion(motion) => q.finished(q.with_motion(motion)),
            Binding::Operator(operator) => if mode is Visual {
                q.finished(Command::Operate { operator, target: Target::Selection })
            } else {
                match q.operator {
                    None => (
                        PendingState { operator: Some(operator), ..q },
                        Outcome::Pending,
                    ),
                    Some(active) => if active == operator {
                        q.finished(Command::Operate { operator, target: Target::CurrentRow })
                    } else {
                        q.rejected()
                    },
                }
            },
            Binding::ObjectScope(scope) => if q.operator is None && !(mode is Visual) {
                q.rejected()
            } else {
                (PendingState { scope: Some(scope), ..q }, Outcome::Pending)
            },
            Binding::Await(awaiting) => (
                PendingState { awaiting: Some(awaiting), ..q },
                Outcome::Pending,
            ),
            Binding::Search { backward } => (
                PendingState { search: Some((Seq::empty(), backward)), ..q },
                Outcome::Pending,
            ),
        }
    }

    /// After a key of a search pattern: text extends it, `<CR>` ends it.
    pub open spec fn search_typed(self, pattern: Seq<char>, backward: bool, key: Key) -> (
        PendingState,
        Outcome,
    ) {
        match key.text() {
            Some(ch) => (
                PendingState { search: Some((pattern.push(ch), backward)), ..self },
                Outcome::Pending,
            ),
            None => if key == (Key { code: KeyCode::Enter, mods: Mods::NONE }) {
                self.finished(self.with_motion(Motion::Search { pattern, backward }))
            } else {
                self.rejected()
            },
        }
    }

    /// After a key in insert or replace mode: a straight lookup, with an unbound
    /// printable key falling through to text.
    pub open spec fn insert_fed(self, key: Key, keymap: KeymapState) -> (PendingState, Outcome) {
        match keymap.walked(Layer::Insert, self.keys.skip(self.path_start)) {
            Walk::Prefix => (self, Outcome::Pending),
            Walk::Bound(Binding::Command(command)) => self.finished(command),
            Walk::Bound(_) => self.rejected(),
            Walk::Unbound => match key.text() {
                Some(ch) if self.keys.len() - self.path_start == 1 => self.finished(
                    Command::InsertText(ch),
                ),
                _ => self.rejected(),
            },
        }
    }

    /// The count slot the next digit goes to.
    pub open spec fn slot(self) -> Option<usize> {
        if self.operator is Some {
            self.count_after
        } else {
            self.count_before
        }
    }

    /// Whether `key` is a count digit here: counts accumulate only at the start of
    /// a key path, and a leading `0` is the first-column motion.
    pub open spec fn counts(self, key: Key) -> bool {
        &&& self.path_start == self.keys.len()
        &&& key.digit() is Some
        &&& !(key.digit()->0 == 0 && self.slot() is None)
    }

    /// After one key, and what it produced.
    #[verifier::opaque]
    pub open spec fn fed(self, key: Key, mode: Mode, keymap: KeymapState) -> (
        PendingState,
        Outcome,
    ) {
        let q = PendingState { keys: self.keys.push(key), ..self };
        if !mode.commands() {
            q.insert_fed(key, keymap)
        } else if key.code == KeyCode::Esc && !self.idle() {
            (PendingState::fresh(), Outcome::Cancelled { keys: q.keys })
        } else if q.awaiting is Some {
            match key.text() {
                Some(ch) => q.await_resolved(q.awaiting->0, ch),
                None => q.rejected(),
            }
        } else if q.search is Some {
            q.search_typed((q.search->0).0, (q.search->0).1, key)
        } else if q.scope is Some {
            match keymap.object_of(key) {
                Some(object) => q.object_resolved(q.scope->0, object),
                None => q.rejected(),
            }
        } else if self.counts(key) {
            let n = Some(with_digit(self.slot(), key.digit()->0));
            let counted = PendingState { path_start: q.keys.len() as int, ..q };
            (
                if q.operator is Some {
                    PendingState { count_after: n, ..counted }
                } else {
                    PendingState { count_before: n, ..counted }
                },
                Outcome::Pending,
            )
        } else {
            let layer = if q.operator is Some {
                Layer::Operator
            } else {
                Layer::for_mode(mode)
            };
            match keymap.walked(layer, q.keys.skip(q.path_start)) {
                Walk::Prefix => (q, Outcome::Pending),
                Walk::Unbound => q.rejected(),
                Walk::Bound(binding) => q.applied(binding, mode),
            }
        }
    }
}

// ---------------------------------------------------------------------------
// the parser
// ---------------------------------------------------------------------------

/// `a * b`, or the largest count where it is larger.
fn saturating_product(a: usize, b: usize) -> (r: usize)
    ensures
        r == saturated(a * b),
{
    match a.checked_mul(b) {
        Some(n) => n,
        None => usize::MAX,
    }
}

/// A copy of the keys from `start` on.
fn keys_from(keys: &Vec<Key>, start: usize) -> (r: Vec<Key>)
    requires
        start <= keys.len(),
    ensures
        r@ == keys@.skip(start as int),
{
    let mut out: Vec<Key> = Vec::new();
    let mut i: usize = start;
    while i < keys.len()
        invariant
            start <= i <= keys.len(),
            out@ == keys@.subrange(start as int, i as int),
        decreases keys.len() - i,
    {
        out.push(keys[i]);
        i += 1;
        proof {
            assert(keys@.subrange(start as int, i as int) =~= keys@.subrange(
                start as int,
                i - 1,
            ).push(keys@[i - 1]));
        }
    }
    proof {
        assert(out@ =~= keys@.skip(start as int));
    }
    out
}

/// Accumulated state between keys.
#[derive(Debug)]
pub struct Pending {
    keys: Vec<Key>,
    /// Start of the partial path through the current layer's bindings.
    path_start: usize,
    count_before: Option<usize>,
    count_after: Option<usize>,
    operator: Option<Operator>,
    scope: Option<ObjectScope>,
    awaiting: Option<AwaitChar>,
    search: Option<(String, bool)>,
}

impl View for Pending {
    type V = PendingState;

    closed spec fn view(&self) -> PendingState {
        PendingState {
            keys: self.keys@,
            path_start: self.path_start as int,
            count_before: self.count_before,
            count_after: self.count_after,
            operator: self.operator,
            scope: self.scope,
            awaiting: self.awaiting,
            search: match self.search {
                Some((pattern, backward)) => Some((pattern@, backward)),
                None => None,
            },
        }
    }
}

impl Default for Pending {
    fn default() -> (r: Self)
        ensures
            r@ == PendingState::fresh(),
    {
        Self::new()
    }
}

impl Clone for Pending {
    fn clone(&self) -> (r: Self)
        ensures
            r@ == self@,
    {
        let search: Option<(String, bool)> = match &self.search {
            Some((pattern, backward)) => Some((pattern.clone(), *backward)),
            None => None,
        };
        Self {
            keys: keymap::clone_keys(self.keys.as_slice()),
            path_start: self.path_start,
            count_before: self.count_before,
            count_after: self.count_after,
            operator: self.operator,
            scope: self.scope,
            awaiting: self.awaiting,
            search,
        }
    }
}

impl Pending {
    /// A parser that has seen nothing.
    #[must_use]
    pub fn new() -> (r: Self)
        ensures
            r@ == PendingState::fresh(),
    {
        Self {
            keys: Vec::new(),
            path_start: 0,
            count_before: None,
            count_after: None,
            operator: None,
            scope: None,
            awaiting: None,
            search: None,
        }
    }

    /// Nothing accumulated; the next key starts a fresh command.
    #[must_use]
    pub fn is_idle(&self) -> (r: bool)
        ensures
            r == self@.idle(),
    {
        self.path_start == self.keys.len() && self.count_before.is_none()
            && self.count_after.is_none() && self.operator.is_none() && self.scope.is_none()
            && self.awaiting.is_none() && self.search.is_none()
    }

    /// Keys consumed so far, for a `showcmd` indicator.
    #[must_use]
    pub fn keys(&self) -> (r: &[Key])
        ensures
            r@ == self@.keys,
    {
        self.keys.as_slice()
    }

    /// The operator awaiting a target, if any.
    #[must_use]
    pub fn operator(&self) -> (r: Option<Operator>)
        ensures
            r == self@.operator,
    {
        self.operator
    }

    /// Forget everything accumulated.
    pub fn reset(&mut self)
        ensures
            final(self)@ == PendingState::fresh(),
    {
        *self = Self::new();
    }

    /// Feed one key.
    ///
    /// `mode` selects the grammar: [`Mode::is_command`] modes get counts and
    /// operators, insert and replace get a straight keymap lookup with unbound
    /// printable keys falling through to text.
    pub fn feed(&mut self, key: Key, mode: Mode, keymap: &Keymap) -> (r: Resolution)
        requires
            old(self)@.wf(),
            keymap.wf(),
        ensures
            (final(self)@, r@) == old(self)@.fed(key, mode, keymap@),
            final(self)@.wf(),
            r@ matches Outcome::Command { count: Some(n), .. } ==> n >= 1,
    {
        proof {
            reveal(PendingState::fed);
        }
        if !mode.is_command() {
            self.keys.push(key);
            return self.feed_insert(key, keymap);
        }
        // `<Esc>` abandons a partial sequence. When nothing is pending it falls
        // through to the keymap, where it means "return to normal mode".

        let idle: bool = self.is_idle();
        let path_is_empty: bool = self.path_start == self.keys.len();
        self.keys.push(key);
        if key.code == KeyCode::Esc && !idle {
            return self.cancel();
        }
        if let Some(awaiting) = self.awaiting {
            return match key.as_text() {
                Some(ch) => self.resolve_await(awaiting, ch),
                None => self.reject(),
            };
        }
        if self.search.is_some() {
            return self.feed_search(key);
        }
        if let Some(scope) = self.scope {
            return match keymap.object(key) {
                Some(object) => self.resolve_object(scope, object),
                None => self.reject(),
            };
        }
        // Counts accumulate only at the start of a key path, and a leading `0` is
        // the first-column motion rather than a digit.

        if path_is_empty {
            if let Some(digit) = key.as_digit() {
                let slot: Option<usize> = if self.operator.is_some() {
                    self.count_after
                } else {
                    self.count_before
                };
                if !(digit == 0 && slot.is_none()) {
                    let n: usize = match slot {
                        Some(count) => saturating_product(count, 10).saturating_add(
                            digit as usize,
                        ),
                        None => digit as usize,
                    };
                    if self.operator.is_some() {
                        self.count_after = Some(n);
                    } else {
                        self.count_before = Some(n);
                    }
                    self.path_start = self.keys.len();
                    return Resolution::Pending;
                }
            }
        }
        let layer: Layer = if self.operator.is_some() {
            Layer::Operator
        } else {
            Layer::of(mode)
        };
        let path: Vec<Key> = keys_from(&self.keys, self.path_start);
        match keymap.walk(layer, path.as_slice()) {
            Walk::Prefix => Resolution::Pending,
            Walk::Unbound => self.reject(),
            Walk::Bound(binding) => self.apply(binding, mode),
        }
    }

    fn feed_insert(&mut self, key: Key, keymap: &Keymap) -> (r: Resolution)
        requires
            old(self)@.keys.len() > 0,
            0 <= old(self)@.path_start <= old(self)@.keys.len(),
            old(self)@.blank() ==> old(self)@.path_start == 0,
            old(self)@.count_before is Some ==> old(self)@.count_before->0 >= 1,
            old(self)@.count_after is Some ==> old(self)@.count_after->0 >= 1,
            keymap.wf(),
        ensures
            (final(self)@, r@) == old(self)@.insert_fed(key, keymap@),
            final(self)@.wf(),
            r@ matches Outcome::Command { count: Some(n), .. } ==> n >= 1,
    {
        let path: Vec<Key> = keys_from(&self.keys, self.path_start);
        match keymap.walk(Layer::Insert, path.as_slice()) {
            Walk::Prefix => Resolution::Pending,
            Walk::Bound(Binding::Command(command)) => self.finish(command),
            // Operators and object scopes are meaningless while inserting.
            Walk::Bound(_) => self.reject(),
            Walk::Unbound => {
                // An unbound printable key is text.
                if self.keys.len() - self.path_start == 1 {
                    if let Some(ch) = key.as_text() {
                        return self.finish(Command::InsertText(ch));
                    }
                }
                self.reject()
            },
        }
    }

    /// Text extends the pattern, `<CR>` ends it.
    fn feed_search(&mut self, key: Key) -> (r: Resolution)
        requires
            old(self)@.wf(),
            old(self)@.search is Some,
        ensures
            (final(self)@, r@) == old(self)@.search_typed(
                (old(self)@.search->0).0,
                (old(self)@.search->0).1,
                key,
            ),
            final(self)@.wf(),
            r@ matches Outcome::Command { count: Some(n), .. } ==> n >= 1,
    {
        let taken: Option<(String, bool)> = self.search.take();
        let (mut pattern, backward): (String, bool) = taken.unwrap();
        match key.as_text() {
            Some(ch) => {
                pattern.push(ch);
                self.search = Some((pattern, backward));
                Resolution::Pending
            },
            None => {
                if key == Key::code(KeyCode::Enter) {
                    let command: Command = self.with_motion(Motion::Search { pattern, backward });
                    self.finish(command)
                } else {
                    self.reject()
                }
            },
        }
    }

    fn apply(&mut self, binding: Binding, mode: Mode) -> (r: Resolution)
        requires
            old(self)@.wf(),
        ensures
            (final(self)@, r@) == old(self)@.applied(binding@, mode),
            final(self)@.wf(),
            r@ matches Outcome::Command { count: Some(n), .. } ==> n >= 1,
    {
        self.path_start = self.keys.len();
        match binding {
            Binding::Command(command) => {
                // An operator needs a target; a plain command is not one.
                if self.operator.is_some() {
                    return self.reject();
                }
                self.finish(command)
            },
            Binding::Motion(motion) => {
                let command: Command = self.with_motion(motion);
                self.finish(command)
            },
            Binding::Operator(operator) => {
                // In visual mode an operator applies to the selection at once.
                if mode.is_visual() {
                    return self.finish(Command::Operate { operator, target: Target::Selection });
                }
                match self.operator {
                    None => {
                        self.operator = Some(operator);
                        Resolution::Pending
                    },
                    // A doubled operator is linewise: `dd`, `cc`, `yy`.
                    Some(active) => {
                        if active == operator {
                            self.finish(
                                Command::Operate { operator, target: Target::CurrentRow },
                            )
                        } else {
                            self.reject()
                        }
                    },
                }
            },
            Binding::ObjectScope(scope) => {
                if self.operator.is_none() && !mode.is_visual() {
                    return self.reject();
                }
                self.scope = Some(scope);
                Resolution::Pending
            },
            Binding::Await(awaiting) => {
                self.awaiting = Some(awaiting);
                Resolution::Pending
            },
            Binding::Search { backward } => {
                self.search = Some((String::new(), backward));
                Resolution::Pending
            },
        }
    }

    fn resolve_await(&mut self, awaiting: AwaitChar, ch: char) -> (r: Resolution)
        requires
            old(self)@.wf(),
        ensures
            (final(self)@, r@) == old(self)@.await_resolved(awaiting, ch),
            final(self)@.wf(),
            r@ matches Outcome::Command { count: Some(n), .. } ==> n >= 1,
    {
        let mark: bool = 'a' <= ch && ch <= 'z';
        let free: bool = self.operator.is_none();
        match awaiting {
            AwaitChar::Find { backward, till } => {
                let command: Command = self.with_motion(
                    Motion::Find(Find { target: ch, backward, till }),
                );
                self.finish(command)
            },
            // These take no target, so a pending operator is a syntax error.
            AwaitChar::ReplaceChar if free => self.finish(Command::ReplaceChar(ch)),
            AwaitChar::RecordMacro if free => self.finish(Command::RecordMacro(ch)),
            AwaitChar::PlayMacro if free => self.finish(Command::PlayMacro(ch)),
            AwaitChar::SetMark if free && mark => self.finish(Command::SetMark(ch)),
            // `'` and `` ` `` name the position before the latest jump. They go
            // through the motion path like any other mark, so `d''` is linewise
            // and ``` d`` ``` characterwise, as `d'a` and `` d`a `` are.
            AwaitChar::GotoMark { exact } if mark || ch == '\'' || ch == '`' => {
                let command: Command = self.with_motion(Motion::Mark { name: ch, exact });
                self.finish(command)
            },
            _ => self.reject(),
        }
    }

    fn resolve_object(&mut self, scope: ObjectScope, object: TextObject) -> (r: Resolution)
        requires
            old(self)@.wf(),
        ensures
            (final(self)@, r@) == old(self)@.object_resolved(scope, object),
            final(self)@.wf(),
            r@ matches Outcome::Command { count: Some(n), .. } ==> n >= 1,
    {
        let command: Command = match self.operator {
            Some(operator) => Command::Operate {
                operator,
                target: Target::Object { scope, object },
            },
            None => Command::SelectObject { scope, object },
        };
        self.finish(command)
    }

    /// A motion is a movement on its own, or an operator's target.
    fn with_motion(&self, motion: Motion) -> (r: Command)
        ensures
            r@ == self@.with_motion(motion@),
    {
        match self.operator {
            Some(operator) => Command::Operate { operator, target: Target::Motion(motion) },
            None => Command::Move(motion),
        }
    }

    /// vi multiplies the two counts: `2d3w` deletes six words.
    fn count(&self) -> (r: Option<usize>)
        ensures
            r == self@.count(),
    {
        match (self.count_before, self.count_after) {
            (None, None) => None,
            (Some(n), None) => Some(n),
            (None, Some(m)) => Some(m),
            (Some(n), Some(m)) => Some(saturating_product(n, m)),
        }
    }

    fn take_keys(&mut self) -> (r: Vec<Key>)
        ensures
            r@ == old(self)@.keys,
            final(self)@ == PendingState::fresh(),
    {
        let mut keys: Vec<Key> = Vec::new();
        core::mem::swap(&mut keys, &mut self.keys);
        self.reset();
        keys
    }

    fn finish(&mut self, command: Command) -> (r: Resolution)
        requires
            old(self)@.count_before is Some ==> old(self)@.count_before->0 >= 1,
            old(self)@.count_after is Some ==> old(self)@.count_after->0 >= 1,
        ensures
            (final(self)@, r@) == old(self)@.finished(command@),
            final(self)@.wf(),
            r@ matches Outcome::Command { count: Some(n), .. } ==> n >= 1,
    {
        let count: Option<usize> = self.count();
        proof {
            if self.count_before is Some && self.count_after is Some {
                let n = self.count_before->0;
                let m = self.count_after->0;
                assert(n * m >= 1) by (nonlinear_arith)
                    requires
                        n >= 1,
                        m >= 1,
                ;
            }
        }
        let keys: Vec<Key> = self.take_keys();
        Resolution::Command { command, count, keys }
    }

    fn reject(&mut self) -> (r: Resolution)
        ensures
            (final(self)@, r@) == old(self)@.rejected(),
            final(self)@.wf(),
            !(r@ is Command),
    {
        let keys: Vec<Key> = self.take_keys();
        Resolution::Rejected { keys }
    }

    fn cancel(&mut self) -> (r: Resolution)
        ensures
            final(self)@ == PendingState::fresh(),
            r@ == (Outcome::Cancelled { keys: old(self)@.keys }),
    {
        let keys: Vec<Key> = self.take_keys();
        Resolution::Cancelled { keys }
    }
}

// ---------------------------------------------------------------------------
// what the grammar promises
// ---------------------------------------------------------------------------

/// The parser loses no key and keeps none too long: while a sequence is partial it
/// holds every key fed, and when the sequence ends, however it ends, it hands all
/// of them back and starts afresh.
pub proof fn the_parser_always_resets(
    p: PendingState,
    key: Key,
    mode: Mode,
    keymap: KeymapState,
)
    ensures
        ({
            let (q, outcome) = p.fed(key, mode, keymap);
            let keys = p.keys.push(key);
            match outcome {
                Outcome::Pending => q.keys == keys,
                Outcome::Command { keys: consumed, .. } => consumed == keys && q
                    == PendingState::fresh(),
                Outcome::Rejected { keys: consumed } => consumed == keys && q
                    == PendingState::fresh(),
                Outcome::Cancelled { keys: consumed } => consumed == keys && q
                    == PendingState::fresh(),
            }
        }),
        PendingState::fresh().idle(),
{
    reveal(PendingState::fed);
}

/// An idle parser holds no key.
pub proof fn an_idle_parser_is_empty(p: PendingState)
    requires
        p.wf(),
        p.idle(),
    ensures
        p == PendingState::fresh(),
{
    assert(p.keys =~= Seq::<Key>::empty());
}

/// `<Esc>` always ends a partial command, and does nothing else to it.
pub proof fn escape_cancels(p: PendingState, mode: Mode, keymap: KeymapState, mods: Mods)
    requires
        mode.commands(),
        !p.idle(),
    ensures
        p.fed(Key { code: KeyCode::Esc, mods }, mode, keymap) == (
            PendingState::fresh(),
            Outcome::Cancelled { keys: p.keys.push(Key { code: KeyCode::Esc, mods }) },
        ),
{
    reveal(PendingState::fed);
}

/// A key bound to a command on its own runs that command at once, when nothing is
/// pending.
pub proof fn a_bound_key_runs_its_command(
    key: Key,
    mode: Mode,
    keymap: KeymapState,
    command: Command<Seq<char>>,
)
    requires
        mode == Mode::Normal,
        key.digit() is None,
        keymap::binds(keymap, Layer::Normal, key, Binding::Command(command)),
    ensures
        PendingState::fresh().fed(key, mode, keymap) == (
            PendingState::fresh(),
            Outcome::Command { command, count: None, keys: seq![key] },
        ),
{
    reveal(PendingState::fed);
    let q = PendingState { keys: PendingState::fresh().keys.push(key), ..PendingState::fresh() };
    assert(q.keys =~= seq![key]);
    assert(q.keys.skip(q.path_start) =~= seq![key]);
    keymap::a_bound_key_is_walked(keymap, Layer::Normal, key, Binding::Command(command));
}

/// Digits typed one after the other make the number they write.
pub proof fn digits_accumulate(
    p: PendingState,
    digit: u32,
    key: Key,
    mode: Mode,
    keymap: KeymapState,
)
    requires
        mode.commands(),
        p.awaiting is None && p.search is None && p.scope is None && p.operator is None,
        p.path_start == p.keys.len(),
        key.digit() == Some(digit),
        p.count_before is Some,
        p.count_before->0 * 10 + digit <= usize::MAX,
    ensures
        p.fed(key, mode, keymap).0.count_before == Some(
            (p.count_before->0 * 10 + digit) as usize,
        ),
        p.fed(key, mode, keymap).1 == Outcome::Pending,
{
    reveal(PendingState::fed);
}

} // verus!
