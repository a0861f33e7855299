//! What rows are: pieces of the text that line feeds part.

use vstd::prelude::*;

use crate::doing;
use crate::text;

verus! {

/// Whether a line feed stands at `i`.
pub open spec fn feed(t: Seq<u8>) -> spec_fn(int) -> bool {
    |i: int| 0 <= i < t.len() && t[i] == 10u8
}

proof fn lemma_feeds(t: Seq<u8>, i: int)
    requires
        0 <= i <= t.len(),
    ensures
        text::newlines(t, i) == doing::tally(feed(t), 0, i),
    decreases i,
{
    if i > 0 {
        lemma_feeds(t, i - 1);
    }
}

/// A byte is on the row that as many line feeds precede, and there is one row more than
/// there are line feeds.
pub proof fn rows_are_parted_by_line_feeds(t: Seq<u8>, i: int)
    requires
        0 <= i <= t.len(),
    ensures
        text::row_of(t, i) == doing::tally(feed(t), 0, i),
        text::rows(t) == doing::tally(feed(t), 0, t.len() as int) + 1,
{
    lemma_feeds(t, i);
    lemma_feeds(t, t.len() as int);
}

/// A row begins the text or follows a line feed. It ends with the text, with a line feed
/// or with a carriage return and a line feed, which are no part of its content, and its
/// content holds no line feed.
pub proof fn a_row_lies_between_line_breaks(t: Seq<u8>, row: int)
    requires
        0 <= row < text::rows(t),
    ensures
        ({
            let a = text::row_start(t, row);
            let c = text::content_end(t, row);
            let e = text::row_end(t, row);
            &&& 0 <= a <= c <= e <= t.len()
            &&& a == 0 || t[a - 1] == 10u8
            &&& doing::tally(feed(t), 0, a) == row
            &&& forall|i: int| a <= i < c ==> #[trigger] t[i] != 10u8
            &&& {
                ||| c == e && e == t.len()
                ||| c + 1 == e && t[c] == 10u8 && (c == a || t[c - 1] != 13u8)
                ||| c + 2 == e && t[c] == 13u8 && t[c + 1] == 10u8
            }
        }),
{
    let a = text::row_start(t, row);
    let c = text::content_end(t, row);
    let e = text::row_end(t, row);
    text::lemma_rows(t, row);
    text::lemma_row_start(t, row);
    lemma_feeds(t, a);
    assert forall|i: int| a <= i < c implies #[trigger] t[i] != 10u8 by {
        text::lemma_row_bytes(t, row, i);
        text::lemma_row_bytes(t, row, i + 1);
    }
    if row + 1 >= text::rows(t) && a < e && t[e - 1] == 10u8 {
        text::lemma_newlines_mono(t, a, e - 1);
        assert(text::newlines(t, e) == text::newlines(t, e - 1) + 1);
        assert(false);
    }
}

} // verus!
