//! The daemon's timing decisions: how long to wait for input, and when the
//! keyboards' next deadline comes.
//!
//! A pending deadline is kept as the number of milliseconds until it, a
//! negative number meaning that none is pending.

use vstd::prelude::*;

verus! {

/// How long to wait for input: forever (-1) when no deadline is pending,
/// otherwise until the deadline, at most `i32::MAX` milliseconds.
pub fn poll_timeout(timeout_ms: i64) -> (r: i32)
    ensures
        r == if timeout_ms < 0 {
            -1
        } else if timeout_ms > i32::MAX {
            i32::MAX as int
        } else {
            timeout_ms as int
        },
{
    if timeout_ms < 0 {
        -1
    } else if timeout_ms > i32::MAX as i64 {
        i32::MAX
    } else {
        timeout_ms as i32
    }
}

/// The pending deadline once a keyboard reports `next` milliseconds until
/// its own (0 when it has none): the sooner of the two.
pub fn merge_timeout(timeout_ms: i64, next: i64) -> (r: i64)
    ensures
        r == if next > 0 {
            if timeout_ms < 0 || next < timeout_ms {
                next
            } else {
                timeout_ms
            }
        } else {
            timeout_ms
        },
{
    if next > 0 {
        if timeout_ms < 0 {
            next
        } else if next < timeout_ms {
            next
        } else {
            timeout_ms
        }
    } else {
        timeout_ms
    }
}

/// The pending deadline after `elapsed` milliseconds, and whether it is due
/// now (reached or past). Without a pending deadline nothing changes.
pub fn elapse_timeout(timeout_ms: i64, elapsed: i64) -> (r: (i64, bool))
    requires
        0 <= elapsed,
    ensures
        r == if timeout_ms >= 0 {
            ((timeout_ms - elapsed) as i64, timeout_ms - elapsed <= 0)
        } else {
            (timeout_ms, false)
        },
{
    if timeout_ms >= 0 {
        let t = timeout_ms - elapsed;
        (t, t <= 0)
    } else {
        (timeout_ms, false)
    }
}

} // verus!
