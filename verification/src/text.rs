//! The mathematics of UTF-8 text: characters at byte offsets, and rows.
//!
//! A text is a sequence of bytes. Positions are byte offsets, and the functions
//! here say what stands at an offset, where the next and the previous character
//! start, and where rows begin and end. Nothing in this module runs: it is the
//! vocabulary the contracts of the other modules are written in.

use vstd::prelude::*;
use vstd::utf8::*;

verus! {

// ---------------------------------------------------------------------------
// characters
// ---------------------------------------------------------------------------

/// Whether `i` is a character boundary of `t`: its end, or a byte that does not
/// continue a character.
pub open spec fn bound(t: Seq<u8>, i: int) -> bool {
    0 <= i <= t.len() && (i == t.len() || !is_continuation_byte(t[i]))
}

/// How many bytes `c` takes in UTF-8.
pub open spec fn char_width(c: char) -> int {
    encode_scalar(c as u32).len() as int
}

/// The character that starts at byte `i`.
pub open spec fn char_at(t: Seq<u8>, i: int) -> Option<char> {
    if 0 <= i < t.len() {
        Some(decode_first_scalar(t.subrange(i, t.len() as int)) as char)
    } else {
        None
    }
}

/// The character that ends at byte `i`.
pub open spec fn char_before(t: Seq<u8>, i: int) -> Option<char> {
    if 0 < i <= t.len() {
        Some(decode_utf8(t.subrange(0, i)).last())
    } else {
        None
    }
}

/// Where the character after the one at `i` starts.
pub open spec fn next(t: Seq<u8>, i: int) -> int {
    match char_at(t, i) {
        Some(c) => i + char_width(c),
        None => i,
    }
}

/// Where the character before `i` starts.
pub open spec fn prev(t: Seq<u8>, i: int) -> int {
    match char_before(t, i) {
        Some(c) => i - char_width(c),
        None => i,
    }
}

/// `t` with `a..b` replaced by `new`.
pub open spec fn splice(t: Seq<u8>, a: int, b: int, new: Seq<u8>) -> Seq<u8> {
    t.subrange(0, a) + new + t.subrange(b, t.len() as int)
}

/// A character takes one to four bytes.
pub proof fn lemma_char_width(c: char)
    ensures
        1 <= char_width(c) <= 4,
        (c as u32) < 0x80 ==> char_width(c) == 1,
{
}

/// In valid text, `bound` is what UTF-8 calls a character boundary.
pub proof fn lemma_bound_is_boundary(t: Seq<u8>, i: int)
    requires
        valid_utf8(t),
        0 <= i <= t.len(),
    ensures
        bound(t, i) <==> is_char_boundary(t, i),
{
    broadcast use is_char_boundary_start_end_of_seq;
    if i < t.len() {
        is_char_boundary_iff_not_is_continuation_byte(t, i);
    } else {
        assert(is_char_boundary(t, t.len() as int));
    }
}

/// The piece of valid text between two boundaries is valid.
pub proof fn lemma_slice_valid(t: Seq<u8>, a: int, b: int)
    requires
        valid_utf8(t),
        bound(t, a),
        bound(t, b),
        a <= b,
    ensures
        valid_utf8(t.subrange(a, b)),
{
    lemma_bound_is_boundary(t, b);
    valid_utf8_split(t, b);
    let head = t.subrange(0, b);
    assert(bound(head, a)) by {
        if a < b {
            assert(head[a] == t[a]);
        }
    }
    lemma_bound_is_boundary(head, a);
    valid_utf8_split(head, a);
    assert(head.subrange(a, head.len() as int) =~= t.subrange(a, b));
}

/// Both ends of a text are boundaries.
pub proof fn lemma_ends(t: Seq<u8>)
    requires
        valid_utf8(t),
    ensures
        bound(t, 0),
        bound(t, t.len() as int),
{
    broadcast use is_char_boundary_start_end_of_seq;
    assert(is_char_boundary(t, 0));
    lemma_bound_is_boundary(t, 0);
}

/// Encoding is a homomorphism.
pub proof fn lemma_encode_append(a: Seq<char>, b: Seq<char>)
    ensures
        encode_utf8(a + b) == encode_utf8(a) + encode_utf8(b),
    decreases a.len(),
{
    if a.len() == 0 {
        assert(a + b =~= b);
        assert(encode_utf8(a) + encode_utf8(b) =~= encode_utf8(b));
    } else {
        assert((a + b).drop_first() =~= a.drop_first() + b);
        lemma_encode_append(a.drop_first(), b);
        assert(encode_utf8(a + b) =~= encode_utf8(a) + encode_utf8(b));
    }
}

/// The encoding of one character.
pub proof fn lemma_encode_one(c: char)
    ensures
        encode_utf8(seq![c]) == encode_scalar(c as u32),
        valid_utf8(encode_scalar(c as u32)),
{
    reveal_with_fuel(encode_utf8, 2);
    assert(seq![c].drop_first() =~= Seq::<char>::empty());
    assert(encode_utf8(seq![c]) =~= encode_scalar(c as u32));
    encode_utf8_valid_utf8(seq![c]);
}

/// Two strings with the same encoding are the same.
pub proof fn lemma_encode_injective(a: Seq<char>, b: Seq<char>)
    ensures
        (encode_utf8(a) == encode_utf8(b)) == (a == b),
{
    encode_utf8_decode_utf8(a);
    encode_utf8_decode_utf8(b);
}

/// Stepping forward from a boundary lands on the next one.
pub proof fn lemma_next(t: Seq<u8>, i: int)
    requires
        valid_utf8(t),
        bound(t, i),
        i < t.len(),
    ensures
        i < next(t, i) <= t.len(),
        next(t, i) <= i + 4,
        bound(t, next(t, i)),
        forall|j: int| i < j < next(t, i) ==> !bound(t, j),
        next(t, i) == i + char_width(char_at(t, i)->0),
        t.subrange(i, next(t, i)) == encode_scalar(char_at(t, i)->0 as u32),
{
    let n = t.len() as int;
    lemma_slice_valid(t, i, n);
    let s = t.subrange(i, n);
    decode_utf8_first_scalar(s);
    let k = length_of_first_scalar(s);
    assert(take_first_scalar(s).len() == k);
    assert(next(t, i) == i + k);
    assert(t.subrange(i, i + k) =~= take_first_scalar(s));
    let p = pop_first_scalar(s);
    assert(valid_utf8(p));
    if p.len() > 0 {
        lemma_ends(p);
        assert(p[0] == t[i + k]);
    }
    assert forall|j: int| i < j < next(t, i) implies !bound(t, j) by {
        assert(is_continuation_byte(s[j - i]));
        assert(s[j - i] == t[j]);
    }
}

/// Stepping back from a boundary lands on the one before it.
pub proof fn lemma_prev(t: Seq<u8>, i: int)
    requires
        valid_utf8(t),
        bound(t, i),
        0 < i,
    ensures
        0 <= prev(t, i) < i,
        i - 4 <= prev(t, i),
        bound(t, prev(t, i)),
        next(t, prev(t, i)) == i,
        char_at(t, prev(t, i)) == char_before(t, i),
        prev(t, i) == i - char_width(char_before(t, i)->0),
        forall|j: int| prev(t, i) < j < i ==> !bound(t, j),
{
    let n = t.len() as int;
    lemma_ends(t);
    lemma_slice_valid(t, 0, i);
    lemma_slice_valid(t, i, n);
    let p = t.subrange(0, i);
    let q = t.subrange(i, n);
    let chars = decode_utf8(p);
    let rest = decode_utf8(q);
    decode_utf8_encode_utf8(p);
    decode_utf8_encode_utf8(q);
    assert(chars.len() > 0) by {
        if chars.len() == 0 {
            assert(encode_utf8(chars).len() == 0);
        }
    }
    let c = chars.last();
    let front = chars.drop_last();
    assert(chars =~= front + seq![c]);
    lemma_encode_append(front, seq![c]);
    lemma_encode_one(c);
    let j = i - char_width(c);
    assert(p == encode_utf8(front) + encode_scalar(c as u32));
    assert(encode_utf8(front).len() == j);
    let tail = seq![c] + rest;
    lemma_encode_append(seq![c], rest);
    assert(t.subrange(j, n) =~= encode_utf8(tail)) by {
        assert forall|k: int| 0 <= k < n - j implies t.subrange(j, n)[k] == encode_utf8(tail)[k] by {
            if k < i - j {
                assert(p[j + k] == t[j + k]);
            } else {
                assert(q[k - (i - j)] == t[j + k]);
            }
        }
    }
    encode_utf8_first_scalar(tail);
    char_u32_cast(c, decode_first_scalar(encode_utf8(tail)));
    lemma_char_width(c);
    assert(t[j] == t.subrange(j, n)[0]);
    assert(bound(t, j));
    lemma_next(t, j);
}

/// A byte below 0x80 is a character of its own.
pub proof fn lemma_ascii(t: Seq<u8>, i: int)
    requires
        valid_utf8(t),
        0 <= i < t.len(),
        t[i] < 0x80,
    ensures
        bound(t, i),
        bound(t, i + 1),
        next(t, i) == i + 1,
        char_at(t, i) == Some(t[i] as char),
{
    let s = t.subrange(i, t.len() as int);
    lemma_slice_valid(t, i, t.len() as int);
    assert(s[0] == t[i]);
    let b = s[0];
    assert(codepoint_width_1(b) == b as u32) by {
        assert((b & 0x7F) as u32 == b as u32) by (bit_vector)
            requires
                b < 0x80,
        ;
    }
    lemma_next(t, i);
    lemma_char_width(char_at(t, i)->0);
}

/// The encoding of an ASCII character is its byte.
pub proof fn lemma_ascii_bytes(c: char)
    requires
        (c as u32) < 0x80,
    ensures
        encode_utf8(seq![c]) == seq![c as u8],
{
    lemma_encode_one(c);
    lemma_char_width(c);
    let u = c as u32;
    assert(leading_byte_width_1(u) == u as u8) by (bit_vector)
        requires
            has_width_1_encoding(u),
    ;
    assert(encode_utf8(seq![c]) =~= seq![c as u8]);
}

/// An ASCII character at the end of a string is one byte at the end of its bytes.
pub proof fn lemma_push_ascii(s: Seq<char>, c: char)
    requires
        (c as u32) < 0x80,
    ensures
        encode_utf8(s.push(c)) == encode_utf8(s).push(c as u8),
{
    lemma_ascii_bytes(c);
    assert(s.push(c) =~= s + seq![c]);
    lemma_encode_append(s, seq![c]);
    assert(encode_utf8(s) + seq![c as u8] =~= encode_utf8(s).push(c as u8));
}

/// Below 0x80, a character and its byte say the same.
pub proof fn lemma_ascii_char(t: Seq<u8>, i: int)
    requires
        valid_utf8(t),
        bound(t, i),
        i < t.len(),
    ensures
        (char_at(t, i)->0 as u32) < 0x80 ==> t[i] == char_at(t, i)->0 as u8,
        t[i] < 0x80 ==> char_at(t, i)->0 as u32 == t[i] as u32,
{
    lemma_next(t, i);
    let c = char_at(t, i)->0;
    if (c as u32) < 0x80 {
        let u = c as u32;
        assert(t.subrange(i, next(t, i))[0] == t[i]);
        assert(leading_byte_width_1(u) == u as u8) by (bit_vector)
            requires
                has_width_1_encoding(u),
        ;
    }
    if t[i] < 0x80 {
        lemma_ascii(t, i);
    }
}

/// Characters, steps and boundaries of a slice are those of the text.
pub proof fn lemma_slice(t: Seq<u8>, a: int, b: int, k: int)
    requires
        valid_utf8(t),
        bound(t, a),
        bound(t, b),
        0 <= k,
        a + k <= b,
    ensures
        valid_utf8(t.subrange(a, b)),
        bound(t.subrange(a, b), k) <==> bound(t, a + k),
        bound(t, a + k) && a + k < b ==> {
            &&& char_at(t.subrange(a, b), k) == char_at(t, a + k)
            &&& next(t.subrange(a, b), k) == next(t, a + k) - a
        },
{
    let s = t.subrange(a, b);
    lemma_slice_valid(t, a, b);
    if a + k < b {
        assert(s[k] == t[a + k]);
        if bound(t, a + k) {
            lemma_next(t, a + k);
            lemma_next(s, k);
            let m = next(t, a + k);
            let ms = next(s, k);
            if m > b {
                assert(!bound(t, b));
            }
            // both steps land on the first boundary after the position
            if ms + a < m {
                assert(bound(s, ms));
                assert(s[ms] == t[a + ms]);
                assert(bound(t, a + ms));
            }
            if m < ms + a {
                assert(bound(t, m));
                assert(s[m - a] == t[m]);
                assert(bound(s, m - a));
            }
            let c = char_at(t, a + k)->0;
            let d = char_at(s, k)->0;
            assert(s.subrange(k, ms) =~= t.subrange(a + k, m));
            lemma_encode_one(c);
            lemma_encode_one(d);
            lemma_encode_injective(seq![c], seq![d]);
            assert(seq![c][0] == seq![d][0]);
        }
    }
}

/// Replacing a piece of valid text between boundaries by valid text keeps it
/// valid, and its length is as expected.
pub proof fn lemma_splice(t: Seq<u8>, a: int, b: int, new: Seq<u8>)
    requires
        valid_utf8(t),
        valid_utf8(new),
        bound(t, a),
        bound(t, b),
        a <= b,
    ensures
        valid_utf8(splice(t, a, b, new)),
        splice(t, a, b, new).len() == t.len() - (b - a) + new.len(),
        splice(t, a, b, new).subrange(a, a + new.len()) == new,
        bound(splice(t, a, b, new), a),
        bound(splice(t, a, b, new), a + new.len()),
        forall|i: int| 0 <= i <= a && bound(t, i) ==> bound(splice(t, a, b, new), i),
        forall|i: int|
            b <= i <= t.len() && bound(t, i) ==> bound(
                splice(t, a, b, new),
                i - b + a + new.len(),
            ),
        splice(splice(t, a, b, new), a, a + new.len(), t.subrange(a, b)) == t,
{
    let n = t.len() as int;
    lemma_ends(t);
    lemma_ends(new);
    lemma_slice_valid(t, 0, a);
    lemma_slice_valid(t, b, n);
    valid_utf8_concat(t.subrange(0, a), new);
    valid_utf8_concat(t.subrange(0, a) + new, t.subrange(b, n));
    let r = splice(t, a, b, new);
    assert(r.subrange(a, a + new.len()) =~= new);
    assert(bound(r, a)) by {
        if new.len() > 0 {
            assert(r[a] == new[0]);
        } else if b < n {
            assert(r[a] == t[b]);
        }
    }
    assert(splice(r, a, a + new.len(), t.subrange(a, b)) =~= t);
}

/// What [`lemma_splice`] says of the ends of the piece put in.
pub proof fn lemma_splice_ends(t: Seq<u8>, a: int, b: int, new: Seq<u8>)
    requires
        valid_utf8(t),
        valid_utf8(new),
        bound(t, a),
        bound(t, b),
        a <= b,
    ensures
        valid_utf8(splice(t, a, b, new)),
        splice(t, a, b, new).len() == t.len() - (b - a) + new.len(),
        bound(splice(t, a, b, new), a),
        bound(splice(t, a, b, new), a + new.len()),
{
    lemma_splice(t, a, b, new);
}

// ---------------------------------------------------------------------------
// rows
// ---------------------------------------------------------------------------

/// Line feeds in the first `i` bytes of `t`.
pub open spec fn newlines(t: Seq<u8>, i: int) -> int
    decreases i,
{
    if i <= 0 {
        0
    } else {
        newlines(t, i - 1) + if t[i - 1] == 10u8 {
            1int
        } else {
            0int
        }
    }
}

/// How many rows `t` has: one more than its line feeds.
pub open spec fn rows(t: Seq<u8>) -> int {
    newlines(t, t.len() as int) + 1
}

/// The row that byte `i` lies on.
pub open spec fn row_of(t: Seq<u8>, i: int) -> int {
    newlines(t, i)
}

/// Whether row `row` of `t` begins at byte `r`.
pub open spec fn starts_row(t: Seq<u8>, row: int, r: int) -> bool {
    &&& 0 <= r <= t.len()
    &&& newlines(t, r) == row
    &&& r == 0 || t[r - 1] == 10u8
}

/// The byte after the first line feed at or after `i`, or the end of the text.
pub open spec fn after_break(t: Seq<u8>, i: int) -> int
    decreases t.len() - i,
{
    if i >= t.len() {
        t.len() as int
    } else if t[i] == 10u8 {
        i + 1
    } else {
        after_break(t, i + 1)
    }
}

/// The byte at which row `row` begins; past the last row, the end of the text.
pub open spec fn row_start(t: Seq<u8>, row: int) -> int
    decreases row,
{
    if row <= 0 {
        0
    } else if row >= rows(t) {
        t.len() as int
    } else {
        after_break(t, row_start(t, row - 1))
    }
}

/// The end of row `row`, its line terminator included.
pub open spec fn row_end(t: Seq<u8>, row: int) -> int {
    if row + 1 < rows(t) {
        row_start(t, row + 1)
    } else {
        t.len() as int
    }
}

/// `end`, or one byte less where the byte before it is `b` and lies past `start`.
pub open spec fn strip(t: Seq<u8>, start: int, end: int, b: u8) -> int {
    if end > start && t[end - 1] == b {
        end - 1
    } else {
        end
    }
}

/// The end of row `row`, its line terminator excluded: a line feed, and a carriage
/// return before it. A carriage return that no line feed follows is content.
pub open spec fn content_end(t: Seq<u8>, row: int) -> int {
    let s = row_start(t, row);
    let e = row_end(t, row);
    if e > s && t[e - 1] == 10u8 {
        strip(t, s, e - 1, 13u8)
    } else {
        e
    }
}

/// Counting line feeds is monotone, and gains at most one a byte.
pub proof fn lemma_newlines_mono(t: Seq<u8>, i: int, j: int)
    requires
        0 <= i <= j,
    ensures
        0 <= newlines(t, i) <= newlines(t, j) <= newlines(t, i) + (j - i),
    decreases j - i, i,
{
    if i < j {
        lemma_newlines_mono(t, i, j - 1);
    } else if i > 0 {
        lemma_newlines_mono(t, i - 1, i - 1);
    }
}

/// The count in a prefix depends on the prefix alone.
pub proof fn lemma_newlines_prefix(t: Seq<u8>, u: Seq<u8>, i: int)
    requires
        0 <= i <= t.len(),
        i <= u.len(),
        forall|k: int| 0 <= k < i ==> t[k] == u[k],
    ensures
        newlines(t, i) == newlines(u, i),
    decreases i,
{
    if i > 0 {
        lemma_newlines_prefix(t, u, i - 1);
    }
}

/// The count over a concatenation is the sum of the counts.
pub proof fn lemma_newlines_concat(a: Seq<u8>, b: Seq<u8>, k: int)
    requires
        0 <= k <= b.len(),
    ensures
        newlines(a + b, a.len() + k) == newlines(a, a.len() as int) + newlines(b, k),
    decreases k,
{
    if k == 0 {
        lemma_newlines_prefix(a + b, a, a.len() as int);
    } else {
        lemma_newlines_concat(a, b, k - 1);
        assert((a + b)[a.len() + k - 1] == b[k - 1]);
    }
}

/// A stretch without line feeds adds nothing to the count.
pub proof fn lemma_no_breaks(r: Seq<u8>, a: int, b: int)
    requires
        0 <= a <= b <= r.len(),
        forall|k: int| a <= k < b ==> r[k] != 10u8,
    ensures
        newlines(r, b) == newlines(r, a),
    decreases b - a,
{
    if a < b {
        lemma_no_breaks(r, a, b - 1);
    }
}

/// Replacing a stretch without line feeds by another leaves the row structure
/// alone.
pub proof fn lemma_same_rows(t: Seq<u8>, a: int, b: int, new: Seq<u8>)
    requires
        0 <= a <= b <= t.len(),
        forall|k: int| a <= k < b ==> t[k] != 10u8,
        forall|k: int| 0 <= k < new.len() ==> new[k] != 10u8,
    ensures
        rows(splice(t, a, b, new)) == rows(t),
{
    let n = t.len() as int;
    let r = splice(t, a, b, new);
    let m = a + new.len();
    let tail = t.subrange(b, n);
    lemma_newlines_prefix(t, r, a);
    assert forall|k: int| a <= k < m implies r[k] != 10u8 by {
        assert(r[k] == new[k - a]);
    }
    lemma_no_breaks(r, a, m);
    lemma_no_breaks(t, a, b);
    let p = t.subrange(0, b);
    let q = t.subrange(0, a) + new;
    assert(t =~= p + tail);
    assert(r =~= q + tail);
    lemma_newlines_concat(p, tail, tail.len() as int);
    lemma_newlines_concat(q, tail, tail.len() as int);
    lemma_newlines_prefix(p, t, b);
    lemma_newlines_prefix(q, r, m);
}

/// At most one byte begins a given row.
pub proof fn lemma_starts_row_unique(t: Seq<u8>, row: int, r: int, s: int)
    requires
        starts_row(t, row, r),
        starts_row(t, row, s),
    ensures
        r == s,
{
    if r < s {
        lemma_newlines_mono(t, r, s - 1);
    }
    if s < r {
        lemma_newlines_mono(t, s, r - 1);
    }
}

/// `after_break` finds the first line feed.
pub proof fn lemma_after_break(t: Seq<u8>, i: int)
    requires
        0 <= i <= t.len(),
    ensures
        i <= after_break(t, i) <= t.len(),
        newlines(t, i) < newlines(t, t.len() as int) ==> {
            &&& after_break(t, i) > i
            &&& t[after_break(t, i) - 1] == 10u8
            &&& newlines(t, after_break(t, i)) == newlines(t, i) + 1
        },
    decreases t.len() - i,
{
    if i < t.len() {
        if t[i] != 10u8 {
            lemma_after_break(t, i + 1);
        }
    }
}

/// Every row begins at its `row_start`.
pub proof fn lemma_row_start(t: Seq<u8>, row: int)
    requires
        0 <= row < rows(t),
    ensures
        starts_row(t, row, row_start(t, row)),
    decreases row,
{
    if row > 0 {
        lemma_row_start(t, row - 1);
        lemma_after_break(t, row_start(t, row - 1));
    }
}

/// Rows begin in order.
pub proof fn lemma_row_start_mono(t: Seq<u8>, a: int, b: int)
    requires
        0 <= a < b,
    ensures
        b < rows(t) ==> row_start(t, a) < row_start(t, b),
        0 <= row_start(t, a) <= row_start(t, b) <= t.len(),
        0 <= rows(t) - 1 <= t.len(),
{
    lemma_newlines_mono(t, 0, t.len() as int);
    if b < rows(t) {
        lemma_row_start(t, a);
        lemma_row_start(t, b);
        let x = row_start(t, a);
        let y = row_start(t, b);
        if y <= x {
            lemma_newlines_mono(t, y, x);
        }
    } else if a < rows(t) {
        lemma_row_start(t, a);
    }
}

/// A byte lies within the row it is on.
pub proof fn lemma_row_of(t: Seq<u8>, i: int)
    requires
        0 <= i <= t.len(),
    ensures
        0 <= row_of(t, i) < rows(t),
        rows(t) <= t.len() + 1,
        0 <= row_start(t, row_of(t, i)) <= i <= row_end(t, row_of(t, i)) <= t.len(),
        row_of(t, i) + 1 < rows(t) ==> i < row_end(t, row_of(t, i)),
{
    let n = t.len() as int;
    lemma_newlines_mono(t, 0, i);
    lemma_newlines_mono(t, i, n);
    lemma_newlines_mono(t, 0, n);
    let row = row_of(t, i);
    lemma_row_start(t, row);
    let s = row_start(t, row);
    if s > i {
        lemma_newlines_mono(t, i, s - 1);
    }
    if row + 1 < rows(t) {
        lemma_row_start(t, row + 1);
        let e = row_start(t, row + 1);
        if e <= i {
            lemma_newlines_mono(t, e, i);
        }
    }
}

/// The bytes between a row's start and its content end lie on that row.
pub proof fn lemma_row_bytes(t: Seq<u8>, row: int, i: int)
    requires
        0 <= row < rows(t),
        row_start(t, row) <= i <= content_end(t, row),
    ensures
        row_of(t, i) == row,
        0 <= i <= t.len(),
{
    lemma_rows(t, row);
    lemma_row_start(t, row);
    let s = row_start(t, row);
    lemma_newlines_mono(t, s, i);
    if row + 1 < rows(t) {
        lemma_row_start(t, row + 1);
        let e = row_start(t, row + 1);
        lemma_newlines_mono(t, i, e - 1);
    } else {
        lemma_newlines_mono(t, i, t.len() as int);
    }
}

/// The start of the text and the byte after a line feed start rows.
pub proof fn lemma_row_starts_at(t: Seq<u8>, i: int)
    requires
        0 <= i <= t.len(),
        i == 0 || t[i - 1] == 10u8,
    ensures
        row_start(t, row_of(t, i)) == i,
{
    lemma_row_of(t, i);
    lemma_row_start(t, row_of(t, i));
    assert(starts_row(t, row_of(t, i), i));
    lemma_starts_row_unique(t, row_of(t, i), i, row_start(t, row_of(t, i)));
}

/// The shape of a row: where it starts, where its content ends, where it ends.
pub proof fn lemma_rows(t: Seq<u8>, row: int)
    requires
        0 <= row < rows(t),
    ensures
        0 <= row_start(t, row) <= content_end(t, row) <= row_end(t, row) <= t.len(),
        rows(t) <= t.len() + 1,
        row + 1 < rows(t) ==> {
            &&& row_end(t, row) == row_start(t, row + 1)
            &&& row_start(t, row) < row_end(t, row)
            &&& t[row_end(t, row) - 1] == 10u8
            &&& content_end(t, row) < row_end(t, row)
        },
{
    lemma_newlines_mono(t, 0, t.len() as int);
    lemma_row_start(t, row);
    if row + 1 < rows(t) {
        lemma_row_start(t, row + 1);
        lemma_row_start_mono(t, row, row + 1);
    }
}

/// In valid text, every offset that shapes a row is a character boundary.
pub proof fn lemma_row_bounds(t: Seq<u8>, row: int)
    requires
        valid_utf8(t),
        0 <= row < rows(t),
    ensures
        bound(t, row_start(t, row)),
        bound(t, row_end(t, row)),
        bound(t, content_end(t, row)),
{
    lemma_rows(t, row);
    lemma_row_start_bound(t, row);
    if row + 1 < rows(t) {
        lemma_row_start_bound(t, row + 1);
    }
    lemma_ends(t);
}

/// A row starts at a character boundary.
pub proof fn lemma_row_start_bound(t: Seq<u8>, row: int)
    requires
        valid_utf8(t),
        0 <= row < rows(t),
    ensures
        bound(t, row_start(t, row)),
{
    lemma_row_start(t, row);
    lemma_ends(t);
    let r = row_start(t, row);
    if r > 0 {
        lemma_ascii(t, r - 1);
    }
}

} // verus!
