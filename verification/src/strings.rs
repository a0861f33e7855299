//! Small operations on strings, stated over their characters.

use vstd::prelude::*;
use vstd::utf8::*;

use crate::text;

verus! {

/// `String::push`: appends one character.
pub assume_specification[ String::push ](s: &mut String, c: char)
    ensures
        final(s)@ == old(s)@.push(c),
;

/// `String::push_str`: appends a string.
pub assume_specification[ String::push_str ](s: &mut String, other: &str)
    ensures
        final(s)@ == old(s)@ + other@,
;

/// The characters of `s`, in order.
pub fn chars_of(s: &str) -> (r: Vec<char>)
    ensures
        r@ == s@,
{
    let mut out: Vec<char> = Vec::new();
    for c in it: s.chars()
        invariant
            it.seq() == s@,
            out@ == it.seq().take(it.index()),
    {
        out.push(c);
        proof {
            assert(it.seq().take(it.index() + 1) =~= it.seq().take(it.index()).push(
                it.seq()[it.index()],
            ));
        }
    }
    proof {
        assert(s@.take(s@.len() as int) =~= s@);
    }
    out
}

/// A string of the given characters.
pub fn from_chars(chars: &[char]) -> (r: String)
    ensures
        r@ == chars@,
{
    let mut out = String::new();
    let mut i: usize = 0;
    while i < chars.len()
        invariant
            i <= chars.len(),
            out@ == chars@.take(i as int),
        decreases chars.len() - i,
    {
        out.push(chars[i]);
        i += 1;
        proof {
            assert(chars@.take(i as int) =~= chars@.take(i - 1).push(chars@[i - 1]));
        }
    }
    proof {
        assert(chars@.take(chars@.len() as int) =~= chars@);
    }
    out
}

/// The length of `s` in bytes.
pub fn byte_len(s: &str) -> (r: usize)
    ensures
        r == encode_utf8(s@).len(),
{
    s.as_bytes().len()
}

/// How many bytes `c` takes in UTF-8.
pub fn len_utf8(c: char) -> (r: usize)
    ensures
        r == text::char_width(c),
        1 <= r <= 4,
{
    let u: u32 = c as u32;
    proof {
        text::lemma_char_width(c);
    }
    if u < 0x80 {
        1
    } else if u < 0x800 {
        2
    } else if u < 0x10000 {
        3
    } else {
        4
    }
}

/// How `Debug` writes a string: between double quotes, with escapes.
pub uninterp spec fn debug_of(s: Seq<char>) -> Seq<char>;

/// `Debug` for `str`, as `{:?}` formats it. What it writes depends on the characters
/// alone.
#[verifier::external_body]
pub(crate) fn debug(s: &str) -> (r: String)
    ensures
        r@ == debug_of(s@),
{
    format!("{s:?}")
}

// ---------------------------------------------------------------------------
// numbers
// ---------------------------------------------------------------------------

/// Whether `c` is an ASCII digit.
pub open spec fn is_digit(c: char) -> bool {
    '0' <= c && c <= '9'
}

/// The digit `d`.
pub open spec fn digit(d: int) -> char {
    (48 + d) as char
}

/// The value of the digit `c`.
pub open spec fn digit_value(c: char) -> int {
    c as int - 48
}

/// `n` in decimal.
pub open spec fn decimal(n: int) -> Seq<char>
    decreases n,
{
    if n < 10 {
        seq![digit(n)]
    } else {
        decimal(n / 10).push(digit(n % 10))
    }
}

/// Whether `s` is made of digits.
pub open spec fn all_digits(s: Seq<char>) -> bool {
    forall|i: int| 0 <= i < s.len() ==> is_digit(#[trigger] s[i])
}

/// The number that the digits `s` write.
pub open spec fn number(s: Seq<char>) -> int
    decreases s.len(),
{
    if s.len() == 0 {
        0
    } else {
        number(s.drop_last()) * 10 + digit_value(s.last())
    }
}

/// The number that `s` writes, where it is no more than `max`: an optional plus
/// sign and at least one digit.
pub open spec fn parsed(s: Seq<char>, max: int) -> Option<int> {
    let t = if s.len() > 0 && s[0] == '+' {
        s.skip(1)
    } else {
        s
    };
    if t.len() > 0 && all_digits(t) && number(t) <= max {
        Some(number(t))
    } else {
        None
    }
}

/// Digits write numbers that are not negative, and more digits larger ones.
pub proof fn lemma_number_mono(s: Seq<char>, i: int)
    requires
        0 <= i <= s.len(),
        all_digits(s),
    ensures
        0 <= number(s.take(i)) <= number(s),
    decreases s.len(),
{
    if i < s.len() {
        let t = s.drop_last();
        assert(all_digits(t)) by {
            assert forall|k: int| 0 <= k < t.len() implies is_digit(#[trigger] t[k]) by {
                assert(t[k] == s[k]);
            }
        }
        lemma_number_mono(t, i);
        assert(t.take(i) =~= s.take(i));
        assert(is_digit(s[s.len() - 1]));
    } else {
        assert(s.take(i) =~= s);
        if s.len() > 0 {
            let t = s.drop_last();
            assert forall|k: int| 0 <= k < t.len() implies is_digit(#[trigger] t[k]) by {
                assert(t[k] == s[k]);
            }
            lemma_number_mono(t, 0);
            assert(t.take(0) =~= Seq::<char>::empty());
            assert(is_digit(s[s.len() - 1]));
            lemma_number_nonneg(t);
        }
    }
}

proof fn lemma_number_nonneg(s: Seq<char>)
    requires
        all_digits(s),
    ensures
        0 <= number(s),
    decreases s.len(),
{
    if s.len() > 0 {
        let t = s.drop_last();
        assert forall|k: int| 0 <= k < t.len() implies is_digit(#[trigger] t[k]) by {
            assert(t[k] == s[k]);
        }
        lemma_number_nonneg(t);
        assert(is_digit(s[s.len() - 1]));
    }
}

/// Reading a number back from its decimal gives the number.
pub proof fn lemma_decimal_reads_back(n: int)
    requires
        0 <= n,
    ensures
        decimal(n).len() > 0,
        all_digits(decimal(n)),
        number(decimal(n)) == n,
    decreases n,
{
    if n >= 10 {
        lemma_decimal_reads_back(n / 10);
        let s = decimal(n);
        assert(s.drop_last() =~= decimal(n / 10));
        assert(s.last() == digit(n % 10));
    } else {
        let s = decimal(n);
        assert(s.drop_last() =~= Seq::<char>::empty());
        assert(s.last() == digit(n));
        reveal_with_fuel(number, 2);
    }
}

/// What [`parsed`] makes of a decimal.
pub proof fn lemma_decimal_parses(n: int, max: int)
    requires
        0 <= n <= max,
    ensures
        parsed(decimal(n), max) == Some(n),
{
    lemma_decimal_reads_back(n);
    assert(is_digit(decimal(n)[0]));
}

/// `n` in decimal.
pub fn to_decimal(n: usize) -> (r: String)
    ensures
        r@ == decimal(n as int),
    decreases n,
{
    let d: u8 = (n % 10) as u8;
    let c: char = (48 + d) as char;
    if n < 10 {
        let mut out = String::new();
        out.push(c);
        assert(out@ =~= decimal(n as int));
        out
    } else {
        let mut out: String = to_decimal(n / 10);
        out.push(c);
        out
    }
}

/// The number that `chars` write, where it is no more than `max`.
pub fn parse_number(chars: &[char], max: usize) -> (r: Option<usize>)
    ensures
        match r {
            Some(n) => parsed(chars@, max as int) == Some(n as int),
            None => parsed(chars@, max as int) is None,
        },
{
    let start: usize = if chars.len() > 0 && chars[0] == '+' {
        1
    } else {
        0
    };
    let ghost t = chars@.skip(start as int);
    proof {
        if start == 0 {
            assert(t =~= chars@);
        }
    }
    if start == chars.len() {
        return None;
    }
    let mut n: usize = 0;
    let mut i: usize = start;
    while i < chars.len()
        invariant
            start <= i <= chars.len(),
            start <= 1,
            t == chars@.skip(start as int),
            t.len() > 0,
            parsed(chars@, max as int) == (if all_digits(t) && number(t) <= max {
                Some(number(t))
            } else {
                None
            }),
            all_digits(t.take(i - start)),
            n == number(t.take(i - start)),
            n <= max,
        decreases chars.len() - i,
    {
        let c: char = chars[i];
        let ghost k = i - start;
        proof {
            assert(t[k] == c);
            assert(t.take(k + 1).drop_last() =~= t.take(k));
            assert(t.take(k + 1).last() == c);
        }
        if !('0' <= c && c <= '9') {
            return None;
        }
        let d: usize = (c as u8 - 48) as usize;
        if n > max / 10 || (n == max / 10 && d > max % 10) {
            proof {
                if all_digits(t) {
                    lemma_number_mono(t, k + 1);
                }
            }
            return None;
        }
        n = n * 10 + d;
        i += 1;
        proof {
            assert forall|j: int| 0 <= j < k + 1 implies is_digit(#[trigger] t.take(k + 1)[j]) by {
                if j < k {
                    assert(t.take(k)[j] == t.take(k + 1)[j]);
                }
            }
        }
    }
    proof {
        assert(t.take(i - start) =~= t);
    }
    Some(n)
}

/// Whether `chars` spell `s`.
pub fn spell(chars: &[char], s: &str) -> (r: bool)
    ensures
        r == (chars@ == s@),
{
    let other: Vec<char> = chars_of(s);
    if chars.len() != other.len() {
        return false;
    }
    let mut i: usize = 0;
    while i < chars.len()
        invariant
            i <= chars.len(),
            chars.len() == other.len(),
            other@ == s@,
            forall|k: int| 0 <= k < i ==> chars[k] == other[k],
        decreases chars.len() - i,
    {
        if chars[i] != other[i] {
            return false;
        }
        i += 1;
    }
    assert(chars@ =~= s@);
    true
}

} // verus!
