//! The display width of a character, as the Unicode width tables give it.
//! Column accounting and line wrapping are stated over this measure.

use vstd::prelude::*;

use unicode_width::UnicodeWidthChar;

verus! {

/// The display width of one character in terminal cells; zero for control
/// characters. The name stands for what the Unicode width tables return:
/// a function of the character alone.
pub uninterp spec fn display_width(c: char) -> nat;

/// Relies on `unicode_width::UnicodeWidthChar::width`: the width depends on
/// the character alone; its source gives every character below U+0020 (all
/// C0 controls, newline included) no width, and every remaining ASCII
/// character a width of one cell.
#[verifier::external_body]
pub(crate) fn char_width(c: char) -> (w: usize)
    ensures
        w == display_width(c),
        (c as u32) < 0x20 ==> w == 0,
        0x20 <= (c as u32) && (c as u32) < 0x7f ==> w == 1,
{
    UnicodeWidthChar::width(c).unwrap_or_default()
}

} // verus!
