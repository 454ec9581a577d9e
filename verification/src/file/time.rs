//! The time of a file that the listing shows, and its date column.

use vstd::prelude::*;

use crate::args::Flags;
use crate::datetime::{date_time_seq, EPOCH_OFFSET};

verus! {

/// Offset of local time from UTC, in seconds.
pub const TIMEZONE: u64 = crate::datetime::TIMEZONE;

/// The times that the metadata of a file holds: its creation time in whole
/// seconds since the epoch when the system records one (and it is not before
/// the epoch), and the access, status-change and modification times.
#[derive(Clone, Copy, Debug)]
pub struct FileTimes {
    pub created: Option<u64>,
    pub atime: i64,
    pub ctime: i64,
    pub mtime: i64,
}

/// The time the listing uses: creation (`-U`, 0 when unknown), access
/// (`-u`), status change (`-c`), else modification.
pub open spec fn unix_seq(t: FileTimes, fl: Flags) -> u64 {
    if fl.create {
        match t.created {
            Some(s) => s,
            None => 0,
        }
    } else if fl.access {
        t.atime as u64
    } else if fl.ctime {
        t.ctime as u64
    } else {
        t.mtime as u64
    }
}

pub fn unix(t: &FileTimes, fl: &Flags) -> (r: u64)
    ensures
        r == unix_seq(*t, *fl),
{
    if fl.create {
        match t.created {
            Some(s) => s,
            None => 0,
        }
    } else if fl.access {
        t.atime as u64
    } else if fl.ctime {
        t.ctime as u64
    } else {
        t.mtime as u64
    }
}

/// The date column for `unix_time`, shown at `clock` (see `crate::datetime::date_time_fmt`).
pub fn date_time_fmt(unix_time: u64, clock: u64) -> (r: String)
    requires
        unix_time <= u64::MAX - EPOCH_OFFSET,
        clock <= u64::MAX - TIMEZONE,
        clock + TIMEZONE >= 15768000,
    ensures
        r@ == date_time_seq(unix_time, clock),
{
    crate::datetime::date_time_fmt(unix_time, clock)
}

} // verus!
