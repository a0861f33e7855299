//! Indentation: measuring the blanks a row begins with, and writing new ones.

use vstd::prelude::*;
use vstd::utf8::*;

use crate::host::Indent;
use crate::pending;
use crate::text;

verus! {

/// `n` copies of the byte `b`.
pub open spec fn bytes_of(b: u8, n: int) -> Seq<u8> {
    Seq::new(
        if n < 0 {
            0
        } else {
            n as nat
        },
        |i: int| b,
    )
}

/// How many spaces and tabs `s` starts with, from `i` on.
pub open spec fn indent_len(s: Seq<u8>, i: int) -> int
    decreases s.len() - i,
{
    if 0 <= i < s.len() && (s[i] == 32u8 || s[i] == 9u8) {
        indent_len(s, i + 1)
    } else {
        i
    }
}

/// The columns that the first `n` bytes of `s`, all spaces and tabs, take where a
/// tab advances to the next multiple of `tab`.
pub open spec fn indent_width(s: Seq<u8>, n: int, tab: int) -> int
    decreases n,
{
    if n <= 0 {
        0
    } else {
        let w = indent_width(s, n - 1, tab);
        pending::saturated(
            if s[n - 1] == 9u8 {
                w + (tab - w % tab)
            } else {
                w + 1
            },
        ) as int
    }
}

/// An indent of `columns` columns.
pub open spec fn indentation(indent: Indent, columns: int) -> Seq<u8> {
    let tab = tab_stop(indent);
    if indent.use_tabs {
        bytes_of(9u8, columns / tab) + bytes_of(32u8, columns % tab)
    } else {
        bytes_of(32u8, columns)
    }
}

/// The columns a tab advances to: zero counts as one.
pub open spec fn tab_stop(indent: Indent) -> int {
    if indent.tab_width < 1 {
        1
    } else {
        indent.tab_width as int
    }
}

/// The columns a tab advances to.
pub(crate) fn tab_columns(indent: Indent) -> (r: usize)
    ensures
        r == tab_stop(indent),
{
    if indent.tab_width < 1 {
        1
    } else {
        indent.tab_width
    }
}

/// How many bytes an indent of `columns` columns takes.
pub(crate) fn indent_size(indent: Indent, columns: usize) -> (r: usize)
    ensures
        r == indentation(indent, columns as int).len(),
{
    let tab: usize = tab_columns(indent);
    if indent.use_tabs {
        proof {
            vstd::arithmetic::div_mod::lemma_fundamental_div_mod(columns as int, tab as int);
            let q = columns as int / tab as int;
            assert(tab * q >= q) by (nonlinear_arith)
                requires
                    tab >= 1,
                    q >= 0,
            ;
        }
        columns / tab + columns % tab
    } else {
        columns
    }
}

/// Append `n` times the ASCII character `c`.
fn pad(out: &mut String, c: char, n: usize)
    requires
        (c as u32) < 0x80,
    ensures
        encode_utf8(final(out)@) == encode_utf8(old(out)@) + bytes_of(c as u8, n as int),
{
    let mut i: usize = 0;
    proof {
        assert(encode_utf8(out@) =~= encode_utf8(old(out)@) + bytes_of(c as u8, 0));
    }
    while i < n
        invariant
            i <= n,
            (c as u32) < 0x80,
            encode_utf8(out@) == encode_utf8(old(out)@) + bytes_of(c as u8, i as int),
        decreases n - i,
    {
        proof {
            text::lemma_push_ascii(out@, c);
        }
        out.push(c);
        i += 1;
        proof {
            assert(encode_utf8(out@) =~= encode_utf8(old(out)@) + bytes_of(c as u8, i as int));
        }
    }
}

/// An indent of `columns` columns.
pub(crate) fn render_indent(indent: Indent, columns: usize) -> (r: String)
    ensures
        encode_utf8(r@) == indentation(indent, columns as int),
{
    let tab: usize = tab_columns(indent);
    let mut out = String::new();
    proof {
        assert(encode_utf8(out@) =~= Seq::<u8>::empty());
    }
    if indent.use_tabs {
        pad(&mut out, '\t', columns / tab);
        pad(&mut out, ' ', columns % tab);
    } else {
        pad(&mut out, ' ', columns);
    }
    proof {
        assert(encode_utf8(out@) =~= indentation(indent, columns as int));
    }
    out
}

/// How many spaces and tabs `bytes` starts with.
pub(crate) fn count_indent(bytes: &[u8]) -> (r: usize)
    ensures
        r == indent_len(bytes@, 0),
        r <= bytes.len(),
        forall|k: int| 0 <= k < r ==> bytes@[k] == 32u8 || bytes@[k] == 9u8,
{
    let mut i: usize = 0;
    while i < bytes.len() && (bytes[i] == 32u8 || bytes[i] == 9u8)
        invariant
            i <= bytes.len(),
            indent_len(bytes@, 0) == indent_len(bytes@, i as int),
            forall|k: int| 0 <= k < i ==> bytes@[k] == 32u8 || bytes@[k] == 9u8,
        decreases bytes.len() - i,
    {
        i += 1;
    }
    i
}

/// The columns that the first `n` bytes of `bytes` take.
pub(crate) fn measure_indent(bytes: &[u8], n: usize, tab: usize) -> (r: usize)
    requires
        n <= bytes.len(),
        tab >= 1,
    ensures
        r == indent_width(bytes@, n as int, tab as int),
{
    let mut width: usize = 0;
    let mut i: usize = 0;
    while i < n
        invariant
            i <= n <= bytes.len(),
            tab >= 1,
            width == indent_width(bytes@, i as int, tab as int),
        decreases n - i,
    {
        width = if bytes[i] == 9u8 {
            width.saturating_add(tab - width % tab)
        } else {
            width.saturating_add(1)
        };
        i += 1;
    }
    width
}

} // verus!
