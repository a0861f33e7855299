//! What Unicode says of characters and of text, as the standard library, the
//! `unicode-segmentation` and the `unicode-width` crates answer it.
//!
//! The tables behind these answers are not restated: each answer is named by a
//! function of the argument, and contracts elsewhere speak of that name.

use unicode_segmentation::UnicodeSegmentation;
use unicode_width::UnicodeWidthChar;
use vstd::prelude::*;
use vstd::utf8::*;

use crate::text;

verus! {

/// Whether `char::is_whitespace` holds of `c`, which is not ASCII.
pub uninterp spec fn is_wide_space(c: char) -> bool;

/// Whether `char::is_whitespace` holds of `c`: of the ASCII characters, space and the
/// controls from tab to carriage return.
pub open spec fn is_space(c: char) -> bool {
    if c <= '\u{7f}' {
        c == ' ' || ('\t' <= c && c <= '\r')
    } else {
        is_wide_space(c)
    }
}

/// `char::is_whitespace`: whether the character has the `White_Space` property. In
/// ASCII that is U+0009 to U+000D and U+0020; elsewhere the answer depends on the
/// character alone.
#[verifier::external_body]
pub(crate) fn whitespace(c: char) -> (r: bool)
    ensures
        c <= '\u{7f}' ==> r == (c == ' ' || ('\t' <= c && c <= '\r')),
        c > '\u{7f}' ==> r == is_wide_space(c),
{
    c.is_whitespace()
}

/// Whether `char::is_alphanumeric` holds of `c`.
pub uninterp spec fn is_alnum(c: char) -> bool;

/// `char::is_alphanumeric`: whether the character is a letter or a number. The
/// answer depends on the character alone.
#[verifier::external_body]
pub(crate) fn alphanumeric(c: char) -> (r: bool)
    ensures
        r == is_alnum(c),
{
    c.is_alphanumeric()
}

/// Whether `char::is_uppercase` holds of `c`.
pub uninterp spec fn is_upper(c: char) -> bool;

/// `char::is_uppercase`: whether the character has the `Uppercase` property. The
/// answer depends on the character alone.
#[verifier::external_body]
pub(crate) fn uppercase(c: char) -> (r: bool)
    ensures
        r == is_upper(c),
{
    c.is_uppercase()
}

/// Whether `char::is_lowercase` holds of `c`.
pub uninterp spec fn is_lower(c: char) -> bool;

/// `char::is_lowercase`: whether the character has the `Lowercase` property. The
/// answer depends on the character alone.
#[verifier::external_body]
pub(crate) fn lowercase(c: char) -> (r: bool)
    ensures
        r == is_lower(c),
{
    c.is_lowercase()
}

/// The characters that `char::to_lowercase` yields for `c`.
pub uninterp spec fn lower_of(c: char) -> Seq<char>;

/// `char::to_lowercase`, its characters gathered in a string. They depend on the
/// character alone.
#[verifier::external_body]
pub(crate) fn lower(c: char) -> (r: String)
    ensures
        r@ == lower_of(c),
{
    c.to_lowercase().to_string()
}

/// The characters that `char::to_uppercase` yields for `c`.
pub uninterp spec fn upper_of(c: char) -> Seq<char>;

/// `char::to_uppercase`, its characters gathered in a string. They depend on the
/// character alone.
#[verifier::external_body]
pub(crate) fn upper(c: char) -> (r: String)
    ensures
        r@ == upper_of(c),
{
    c.to_uppercase().to_string()
}

/// The offsets at which the extended grapheme clusters of a text begin.
pub uninterp spec fn grapheme_starts(s: Seq<char>) -> Seq<usize>;

/// What holds of the cluster starts of any text: the first is 0, they increase,
/// and each is the offset of a character of the text.
pub open spec fn cuts(starts: Seq<usize>, t: Seq<u8>) -> bool {
    &&& starts.len() == 0 <==> t.len() == 0
    &&& starts.len() > 0 ==> starts[0] == 0
    &&& forall|i: int, j: int| 0 <= i < j < starts.len() ==> starts[i] < starts[j]
    &&& forall|i: int|
        0 <= i < starts.len() ==> #[trigger] starts[i] < t.len() && text::bound(
            t,
            starts[i] as int,
        )
}

/// `UnicodeSegmentation::grapheme_indices` over extended clusters, keeping the
/// offset of each. They depend on the text alone, and each cluster is a non-empty
/// piece of it that begins where the one before it ends.
#[verifier::external_body]
pub(crate) fn grapheme_offsets(s: &str) -> (r: Vec<usize>)
    ensures
        r@ == grapheme_starts(s@),
        cuts(r@, encode_utf8(s@)),
{
    s.grapheme_indices(true).map(|(offset, _)| offset).collect()
}

/// How many columns `UnicodeWidthChar::width` gives to `c`.
pub uninterp spec fn columns_of(c: char) -> Option<usize>;

/// `UnicodeWidthChar::width`: the columns the character takes on a display, or
/// nothing for a control character. The answer depends on the character alone.
#[verifier::external_body]
pub(crate) fn columns(c: char) -> (r: Option<usize>)
    ensures
        r == columns_of(c),
{
    UnicodeWidthChar::width(c)
}

} // verus!
