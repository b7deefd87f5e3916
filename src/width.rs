//! Display width of text in terminal columns.
use vstd::prelude::*;
use unicode_width::UnicodeWidthStr;

verus! {

/// The number of terminal columns that a string takes.
pub uninterp spec fn display_width(s: Seq<char>) -> usize;

/// Relies on unicode-width's `UnicodeWidthStr::width`: the columns a string takes by the
/// Unicode width tables, with each character read in the context of its neighbours; an empty
/// string takes none.
#[verifier::external_body]
pub(crate) fn width_of(s: &str) -> (r: usize)
    ensures
        r == display_width(s@),
        s@.len() == 0 ==> r == 0,
{
    s.width()
}

} // verus!
