//! Laying out listings: the shared column gap and padding.

pub mod grid;
pub mod list;
pub mod tree;

use vstd::prelude::*;

use crate::text::{push_spaces, spaces_seq};

verus! {

/// Spaces between the columns of the grid layout.
pub const GRID_GAP: usize = 3;

/// A string of `width` spaces.
pub fn spaces(width: usize) -> (r: String)
    ensures
        r@ == spaces_seq(width as nat),
{
    let mut out = String::new();
    push_spaces(&mut out, width);
    proof {
        assert(out@ =~= spaces_seq(width as nat));
    }
    out
}

} // verus!
