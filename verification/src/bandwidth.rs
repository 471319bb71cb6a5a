//! Limiting the bandwidth of a stream.

use vstd::prelude::*;

verus! {

/// The bytes per second that a limit allows; a limit of zero is none.
pub fn limiter_rate(limit_bytes_per_sec: u64) -> (r: Option<u64>)
    ensures
        r == (if limit_bytes_per_sec > 0 {
            Some(limit_bytes_per_sec)
        } else {
            None
        }),
{
    if limit_bytes_per_sec > 0 {
        Some(limit_bytes_per_sec)
    } else {
        None
    }
}

/// What a stream does when bytes are to be moved.
#[derive(Debug, Clone, Copy, PartialEq, Eq)]
pub enum Transfer {
    /// Moves at most so many bytes.
    UpTo(usize),
    /// Waits until more bytes are allowed.
    Wait,
}

/// How many bytes may be moved at once: those that are wanted, as far as the limit leaves any.
/// `available` is what the limit leaves at this moment, where there is a limit.
pub fn transfer(available: Option<usize>, wanted: usize) -> (r: Transfer)
    ensures
        r == (match available {
            None => Transfer::UpTo(wanted),
            Some(a) => if a == 0 {
                Transfer::Wait
            } else if a < wanted {
                Transfer::UpTo(a)
            } else {
                Transfer::UpTo(wanted)
            },
        }),
{
    match available {
        None => Transfer::UpTo(wanted),
        Some(a) => {
            if a == 0 {
                Transfer::Wait
            } else if a < wanted {
                Transfer::UpTo(a)
            } else {
                Transfer::UpTo(wanted)
            }
        },
    }
}

} // verus!
