//! A colourful listing of directory contents: the parsing of its command
//! line, the information shown about each file, and the layouts (grid,
//! long list and tree) that present it.

pub mod args;
pub mod color;
pub mod datetime;
pub mod display;
pub mod ext;
pub mod file;
pub mod fileinfo;
pub mod listing;
pub mod sort;
pub mod termsize;
pub mod text;

use vstd::prelude::*;

verus! {

/// Widths of the columns of a long listing, grown to fit every file listed.
#[derive(Debug, Clone, Copy)]
pub struct Width {
    pub uid: usize,
    pub gid: usize,
    pub szn: usize,
    pub xattr: bool,
    pub inode: usize,
}

} // verus!
