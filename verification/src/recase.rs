//! Case-changing operators on text.

use vstd::prelude::*;

use crate::command::Operator;
use crate::search;
use crate::strings;
use crate::unicode;

verus! {

/// `c` with its case swapped, one character for one.
pub open spec fn swapped(c: char) -> char {
    if unicode::is_upper(c) {
        if unicode::lower_of(c).len() > 0 {
            unicode::lower_of(c)[0]
        } else {
            c
        }
    } else if unicode::is_lower(c) {
        if unicode::upper_of(c).len() > 0 {
            unicode::upper_of(c)[0]
        } else {
            c
        }
    } else {
        c
    }
}

/// `s` with every character raised.
pub open spec fn raised(s: Seq<char>) -> Seq<char>
    decreases s.len(),
{
    if s.len() == 0 {
        Seq::empty()
    } else {
        raised(s.drop_last()) + unicode::upper_of(s.last())
    }
}

/// `s` after a case-changing operator. Lowering and raising are one-to-many (`ß`
/// uppercases to `SS`), so the result can be longer; swapping is one-to-one.
pub open spec fn recased(s: Seq<char>, operator: Operator) -> Seq<char> {
    match operator {
        Operator::Lower => search::lowered(s),
        Operator::Upper => raised(s),
        _ => s.map_values(|c: char| swapped(c)),
    }
}

/// `ch` with its case swapped.
fn swap_case(ch: char) -> (r: char)
    ensures
        r == swapped(ch),
{
    if unicode::uppercase(ch) {
        first_or(unicode::lower(ch).as_str(), ch)
    } else if unicode::lowercase(ch) {
        first_or(unicode::upper(ch).as_str(), ch)
    } else {
        ch
    }
}

/// The first character of `s`, or `ch` where there is none.
fn first_or(s: &str, ch: char) -> (r: char)
    ensures
        r == if s@.len() > 0 {
            s@[0]
        } else {
            ch
        },
{
    let chars: Vec<char> = strings::chars_of(s);
    if chars.len() > 0 {
        chars[0]
    } else {
        ch
    }
}

/// `chars` in upper case.
fn raise(chars: &Vec<char>) -> (r: String)
    ensures
        r@ == raised(chars@),
{
    let mut out = String::new();
    let mut i: usize = 0;
    proof {
        assert(chars@.take(0) =~= Seq::<char>::empty());
        assert(out@ =~= raised(chars@.take(0)));
    }
    while i < chars.len()
        invariant
            i <= chars.len(),
            out@ == raised(chars@.take(i as int)),
        decreases chars.len() - i,
    {
        out.push_str(unicode::upper(chars[i]).as_str());
        i += 1;
        proof {
            assert(chars@.take(i as int).drop_last() =~= chars@.take(i - 1));
        }
    }
    proof {
        assert(chars@.take(chars@.len() as int) =~= chars@);
    }
    out
}

/// `chars` with the case of each swapped.
fn swap(chars: &Vec<char>) -> (r: String)
    ensures
        r@ == chars@.map_values(|c: char| swapped(c)),
{
    let ghost f = |c: char| swapped(c);
    let mut out = String::new();
    let mut i: usize = 0;
    while i < chars.len()
        invariant
            i <= chars.len(),
            f == (|c: char| swapped(c)),
            out@ == chars@.take(i as int).map_values(f),
        decreases chars.len() - i,
    {
        out.push(swap_case(chars[i]));
        i += 1;
        proof {
            assert(out@ =~= chars@.take(i as int).map_values(f));
        }
    }
    proof {
        assert(chars@.take(chars@.len() as int) =~= chars@);
    }
    out
}

/// Apply a case-changing operator to a stretch of text.
///
/// Lowering and raising are one-to-many (`ß` uppercases to `SS`), so the result
/// can be longer than the input. Swapping stays one-to-one, since there is no
/// sensible reverse of that.
pub(crate) fn recase(text: &str, operator: Operator) -> (r: String)
    requires
        operator is Lower || operator is Upper || operator is SwapCase,
    ensures
        r@ == recased(text@, operator),
{
    let chars: Vec<char> = strings::chars_of(text);
    match operator {
        Operator::Lower => strings::from_chars(search::fold(&chars).as_slice()),
        Operator::Upper => raise(&chars),
        _ => swap(&chars),
    }
}

} // verus!
