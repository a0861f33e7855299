//! What is promised of remembered places: marks, jumps and the column, and of the scrolls.

use vstd::prelude::*;
use vstd::utf8::*;

use crate::aiming;
use crate::command::{Command, Motion, Scroll};
use crate::doing;
use crate::effect::Effect;
use crate::finding;
use crate::grapheme;
use crate::key::Key;
use crate::motion;
use crate::reaching;
use crate::spans;
use crate::state;
use crate::state::{EditorState, Turn};
use crate::text;

verus! {

/// Whether `name` is that of a mark set by hand.
pub open spec fn lettered(name: char) -> bool {
    'a' <= name && name <= 'z'
}

/// `m` and a letter mark the cursor. The text, the cursor and the marks of the other
/// letters stay.
pub proof fn a_mark_remembers_the_cursor(s: EditorState, key: Key, name: char, count: Option<usize>)
    requires
        s.wf(),
        lettered(name),
        doing::completes(s, key, Command::SetMark(name), count),
    ensures
        ({
            let u = doing::after(s, key);
            &&& u.mark(name) == Some(s.cursor as usize)
            &&& u.text == s.text
            &&& u.cursor == s.cursor
            &&& u.mode == s.mode
            &&& u.register == s.register
            &&& forall|other: char|
                lettered(other) && other != name ==> #[trigger] u.mark(other) == s.mark(other)
        }),
{
    doing::lemma_done(s, key, Command::SetMark(name), count);
    reveal(Turn::acted);
    reveal(state::positions_lie_in);
    let a = doing::opening(s, key).acted(Command::SetMark(name), count).state;
    assert(a.marks.len() == 31);
    let u = doing::after(s, key);
    let i = name as int - 97;
    assert(0 <= i < 26);
    assert(u.marks[i] == a.marks[i]);
    assert forall|other: char| lettered(other) && other != name implies #[trigger] u.mark(other)
        == s.mark(other) by {
        let j = other as int - 97;
        assert(0 <= j < 26 && j != i);
        assert(u.marks[j] == a.marks[j]);
    }
}

/// `` ` `` goes to a mark, and `'` to where the text of its row begins. Where the mark is
/// not set they ring.
pub proof fn a_mark_is_gone_to(
    s: EditorState,
    key: Key,
    name: char,
    exact: bool,
    count: Option<usize>,
) -> (p: int)
    requires
        s.wf(),
        doing::completes(s, key, Command::Move(Motion::Mark { name, exact }), count),
    ensures
        match reaching::mark_of(s, name) {
            None => finding::landed(s, key, None),
            Some(offset) => {
                &&& finding::landed(s, key, Some(p))
                &&& exact ==> p == grapheme::clamped(
                    s.text,
                    offset as int,
                    doing::resting(s.mode),
                )
                &&& !exact && aiming::even(s.text) ==> aiming::leads(
                    s.text,
                    text::row_of(s.text, aiming::least(offset as int, s.text.len() as int)),
                    p,
                )
            },
        },
{
    doing::lemma_done(s, key, Command::Move(Motion::Mark { name, exact }), count);
    reveal(Turn::acted);
    reveal(Turn::moved);
    reveal(motion::aimed);
    assert(Seq::<Effect>::empty().push(Effect::Bell) =~= seq![Effect::Bell]);
    match reaching::mark_of(s, name) {
        None => 0,
        Some(offset) => {
            let at = grapheme::clamped(s.text, offset as int, doing::resting(s.mode));
            if exact {
                at
            } else {
                if aiming::even(s.text) {
                    spans::lemma_clamped(s.text, offset as int, doing::resting(s.mode));
                    text::lemma_row_of(s.text, at);
                    aiming::lemma_leads(s.text, text::row_of(s.text, at));
                }
                crate::scan::first_non_blank(s.text, text::row_of(s.text, at))
            }
        },
    }
}

/// Whether a motion goes far enough to be worth a way back.
pub open spec fn far(motion: Motion<Seq<char>>) -> bool {
    match motion {
        Motion::Left
        | Motion::Right
        | Motion::Up
        | Motion::Down
        | Motion::FirstColumn
        | Motion::FirstNonBlank
        | Motion::LastColumn
        | Motion::WordForward { .. }
        | Motion::WordBackward { .. }
        | Motion::WordEnd { .. }
        | Motion::Find(_)
        | Motion::RepeatFind { .. } => false,
        _ => true,
    }
}

/// A motion that goes far remembers where it left from, as the newest place to go back
/// to, and forgets the places past the one gone back to. The others leave the places
/// alone, and so does one that goes nowhere.
pub proof fn a_far_motion_remembers_where_it_left(
    s: EditorState,
    key: Key,
    motion: Motion<Seq<char>>,
    count: Option<usize>,
)
    requires
        s.wf(),
        doing::completes(s, key, Command::Move(motion), count),
    ensures
        ({
            let u = doing::after(s, key);
            if far(motion) && u.cursor != s.cursor {
                &&& u.jumps.len() == aiming::least(s.jump_at + 1, state::MAX_JUMPS as int)
                &&& u.jumps.last() == s.cursor
                &&& u.jump_at == u.jumps.len()
                &&& s.jump_at < state::MAX_JUMPS ==> u.jumps.drop_last() == s.jumps.take(s.jump_at)
            } else {
                u.jumps == s.jumps && u.jump_at == s.jump_at
            }
        }),
{
    doing::lemma_done(s, key, Command::Move(motion), count);
    reveal(Turn::acted);
    reveal(Turn::moved);
    reveal(state::positions_lie_in);
    let all = s.jumps.take(s.jump_at).push(s.cursor as usize);
    assert(all.drop_last() =~= s.jumps.take(s.jump_at));
    assert(all.skip(1).last() == all.last() || all.len() <= 1);
}

/// The column that `j` and `k` keep to is that of the cursor after any other motion, and
/// past every column after `$`.
pub proof fn a_motion_sets_the_column_to_keep_to(
    s: EditorState,
    key: Key,
    motion: Motion<Seq<char>>,
    count: Option<usize>,
)
    requires
        s.wf(),
        doing::completes(s, key, Command::Move(motion), count),
        doing::told(s, key).len() == 0,
    ensures
        ({
            let u = doing::after(s, key);
            match motion {
                Motion::Up | Motion::Down => u.sticky == s.sticky,
                Motion::LastColumn => u.sticky == usize::MAX,
                _ => u.sticky == grapheme::column(s.text, u.cursor),
            }
        }),
{
    doing::lemma_done(s, key, Command::Move(motion), count);
    reveal(Turn::acted);
    reveal(Turn::moved);
}

/// How many rows a scroll goes: half the screen or the screen but two rows, and one at
/// least.
pub open spec fn rows_scrolled(scroll: Scroll, height: int) -> int {
    match scroll {
        Scroll::HalfPageDown | Scroll::HalfPageUp => aiming::most(height / 2, 1),
        Scroll::PageDown | Scroll::PageUp => aiming::most(height - 2, 1),
        _ => 0,
    }
}

/// A scroll by pages takes the cursor as many rows down or up, as `j` and `k` would, and
/// the others leave it. Each asks the host for what it is.
pub proof fn a_scroll_carries_the_cursor(
    s: EditorState,
    key: Key,
    scroll: Scroll,
    count: Option<usize>,
) -> (p: int)
    requires
        s.wf(),
        s.sticky >= 0,
        doing::completes(s, key, Command::Scroll(scroll), count),
    ensures
        ({
            let u = doing::after(s, key);
            let n = rows_scrolled(scroll, s.viewport.height as int);
            &&& u.text == s.text
            &&& u.mode == s.mode
            &&& u.register == s.register
            &&& doing::told(s, key) == seq![Effect::Scroll(scroll)]
            &&& if n == 0 || s.viewport.height == 0 {
                u.cursor == s.cursor
            } else {
                aiming::even(s.text) ==> {
                    &&& u.cursor == grapheme::clamped(s.text, p, doing::resting(s.mode))
                    &&& aiming::goal(
                        s,
                        if scroll is HalfPageDown || scroll is PageDown {
                            Motion::Down
                        } else {
                            Motion::Up
                        },
                        Some(n as usize),
                        doing::resting(s.mode),
                        p,
                    )
                }
            }
        }),
{
    doing::lemma_done(s, key, Command::Scroll(scroll), count);
    reveal(Turn::acted);
    reveal(Turn::scrolled);
    assert(Seq::<Effect>::empty().push(Effect::Scroll(scroll)) =~= seq![Effect::Scroll(scroll)]);
    let n = rows_scrolled(scroll, s.viewport.height as int);
    let motion: Motion<Seq<char>> = if scroll is HalfPageDown || scroll is PageDown {
        Motion::Down
    } else {
        Motion::Up
    };
    let h = doing::opening(s, key).state;
    let bound = doing::resting(s.mode);
    if n > 0 && s.viewport.height > 0 && aiming::even(s.text) {
        aiming::lemma_goal(h, motion, Some(n as usize), bound);
        let aim = motion::aimed(
            h.text,
            h.cursor,
            motion,
            Some(n as usize),
            h.sticky,
            h.last_find,
            h.last_search,
            h.viewport,
            bound,
        );
        assert(aim is Some) by {
            reveal(motion::aimed);
        }
        aim->0
    } else {
        0
    }
}

} // verus!
