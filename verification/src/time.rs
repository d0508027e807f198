//! The closed-minute grid of exchange close times and the coverage of a UTC window on it.
//!
//! An exchange stamps a one-minute bar with its close time, one millisecond before the UTC
//! minute boundary that ends it. The close times are therefore `k * MINUTE - MILLISECOND`
//! for `k >= 1`.

use vstd::prelude::*;

use crate::error::SourceError;

verus! {

pub const NANOSECONDS_IN_MICROSECOND: u64 = 1_000u64;

pub const NANOSECONDS_IN_MILLISECOND: u64 = 1_000_000u64;

pub const NANOSECONDS_IN_MINUTE: u64 = 60_000_000_000u64;

/// The minute boundary nearest to `s` (halfway rounds up).
pub open spec fn nearest_minute(s: int) -> int {
    ((s + NANOSECONDS_IN_MINUTE / 2) / (NANOSECONDS_IN_MINUTE as int)) * NANOSECONDS_IN_MINUTE
}

/// `c` is an exchange close time: one millisecond before a positive minute boundary.
pub open spec fn is_close_time(c: int) -> bool {
    &&& c >= NANOSECONDS_IN_MINUTE - NANOSECONDS_IN_MILLISECOND
    &&& (c + NANOSECONDS_IN_MILLISECOND) % (NANOSECONDS_IN_MINUTE as int) == 0
}

/// The canonical close time of a bar stamped `timestamp`: the exchange close time nearest to it,
/// when there is one within a microsecond.
pub open spec fn canonical_close(timestamp: int) -> Result<u64, SourceError> {
    let shifted = timestamp + NANOSECONDS_IN_MILLISECOND;
    let boundary = nearest_minute(shifted);
    if shifted > u64::MAX {
        Err(SourceError::TimestampOverflows)
    } else if !(boundary - NANOSECONDS_IN_MICROSECOND <= shifted <= boundary
        + NANOSECONDS_IN_MICROSECOND) {
        Err(SourceError::NotClosedMinutePhase)
    } else if boundary > u64::MAX {
        Err(SourceError::CloseBoundaryOverflows)
    } else if boundary < NANOSECONDS_IN_MILLISECOND {
        Err(SourceError::ClosePrecedesEpoch)
    } else {
        Ok((boundary - NANOSECONDS_IN_MILLISECOND) as u64)
    }
}

/// Splits `s` into whole minutes and a remainder, and rounds it to the nearest minute.
pub proof fn lemma_minute_split(s: int)
    requires
        s >= 0,
    ensures
        s == (s / (NANOSECONDS_IN_MINUTE as int)) * NANOSECONDS_IN_MINUTE + s % (
        NANOSECONDS_IN_MINUTE as int),
        0 <= s % (NANOSECONDS_IN_MINUTE as int) < NANOSECONDS_IN_MINUTE,
        s % (NANOSECONDS_IN_MINUTE as int) < NANOSECONDS_IN_MINUTE / 2 ==> nearest_minute(s) == (s
            / (NANOSECONDS_IN_MINUTE as int)) * NANOSECONDS_IN_MINUTE,
        s % (NANOSECONDS_IN_MINUTE as int) >= NANOSECONDS_IN_MINUTE / 2 ==> nearest_minute(s) == (s
            / (NANOSECONDS_IN_MINUTE as int) + 1) * NANOSECONDS_IN_MINUTE,
{
    let m = NANOSECONDS_IN_MINUTE as int;
    let q = s / m;
    let r = s % m;
    vstd::arithmetic::div_mod::lemma_fundamental_div_mod(s, m);
    vstd::arithmetic::div_mod::lemma_mod_pos_bound(s, m);
    assert(s == q * m + r) by (nonlinear_arith)
        requires
            s == m * q + r,
    ;
    let h = m / 2;
    if r < h {
        vstd::arithmetic::div_mod::lemma_fundamental_div_mod_converse(s + h, m, q, r + h);
    } else {
        vstd::arithmetic::div_mod::lemma_fundamental_div_mod_converse(s + h, m, q + 1, r + h - m);
    }
}

/// Maps a bar timestamp to its exchange close time, tolerating a microsecond of phase error.
pub fn canonical_close_ns(timestamp: u64) -> (res: Result<u64, SourceError>)
    ensures
        res == canonical_close(timestamp as int),
        res matches Ok(c) ==> is_close_time(c as int),
{
    let shifted = match timestamp.checked_add(NANOSECONDS_IN_MILLISECOND) {
        Some(s) => s,
        None => return Err(SourceError::TimestampOverflows),
    };
    let remainder = shifted % NANOSECONDS_IN_MINUTE;
    let ghost q = shifted as int / NANOSECONDS_IN_MINUTE as int;
    proof {
        lemma_minute_split(shifted as int);
    }
    let boundary = if remainder <= NANOSECONDS_IN_MICROSECOND {
        shifted - remainder
    } else if NANOSECONDS_IN_MINUTE - remainder <= NANOSECONDS_IN_MICROSECOND {
        match shifted.checked_add(NANOSECONDS_IN_MINUTE - remainder) {
            Some(b) => b,
            None => return Err(SourceError::CloseBoundaryOverflows),
        }
    } else {
        return Err(SourceError::NotClosedMinutePhase);
    };
    match boundary.checked_sub(NANOSECONDS_IN_MILLISECOND) {
        Some(c) => {
            proof {
                let k = if remainder <= NANOSECONDS_IN_MICROSECOND { q } else { q + 1 };
                assert(boundary == k * NANOSECONDS_IN_MINUTE);
                vstd::arithmetic::div_mod::lemma_fundamental_div_mod_converse(
                    c + NANOSECONDS_IN_MILLISECOND,
                    NANOSECONDS_IN_MINUTE as int,
                    k,
                    0,
                );
            }
            Ok(c)
        },
        None => Err(SourceError::ClosePrecedesEpoch),
    }
}

/// Minutes needed to reach `s`, rounded up.
pub open spec fn minutes_ceil(s: int) -> int {
    (s + NANOSECONDS_IN_MINUTE - 1) / (NANOSECONDS_IN_MINUTE as int)
}

/// The first exchange close time at or after `start`.
pub open spec fn first_close(start: int) -> int {
    minutes_ceil(start + NANOSECONDS_IN_MILLISECOND) * NANOSECONDS_IN_MINUTE
        - NANOSECONDS_IN_MILLISECOND
}

/// The last minute boundary at or before `end` plus a millisecond.
pub open spec fn last_boundary(end: int) -> int {
    ((end + NANOSECONDS_IN_MILLISECOND) / (NANOSECONDS_IN_MINUTE as int)) * NANOSECONDS_IN_MINUTE
}

/// The last exchange close time at or before `end`, or zero when there is none.
pub open spec fn last_close(end: int) -> int {
    if last_boundary(end) >= NANOSECONDS_IN_MILLISECOND {
        last_boundary(end) - NANOSECONDS_IN_MILLISECOND
    } else {
        0
    }
}

/// The number of exchange close times from `first` to `last`, a minute apart.
pub open spec fn close_count(first: int, last: int) -> int {
    if first <= last {
        (last - first) / (NANOSECONDS_IN_MINUTE as int) + 1
    } else {
        0
    }
}

/// What [`close_window`] gives for a UTC window `[start, end]`.
pub open spec fn spec_close_window(start: int, end: int) -> Result<(u64, u64), SourceError> {
    if start + NANOSECONDS_IN_MILLISECOND > u64::MAX {
        Err(SourceError::StartOverflows)
    } else if first_close(start) + NANOSECONDS_IN_MILLISECOND > u64::MAX {
        Err(SourceError::FirstCloseOverflows)
    } else if end + NANOSECONDS_IN_MILLISECOND > u64::MAX {
        Err(SourceError::EndOverflows)
    } else {
        Ok((first_close(start) as u64, last_close(end) as u64))
    }
}

proof fn lemma_close_bounds(start: int, end: int)
    requires
        0 <= start,
        0 <= end,
    ensures
        first_close(start) >= start,
        first_close(start) >= NANOSECONDS_IN_MINUTE - NANOSECONDS_IN_MILLISECOND,
        is_close_time(first_close(start)),
        last_close(end) <= end + NANOSECONDS_IN_MILLISECOND,
        last_boundary(end) <= end + NANOSECONDS_IN_MILLISECOND,
        last_boundary(end) >= 0,
        last_boundary(end) % (NANOSECONDS_IN_MINUTE as int) == 0,
{
    let m = NANOSECONDS_IN_MINUTE as int;
    let ms = NANOSECONDS_IN_MILLISECOND as int;
    lemma_minute_split(start + ms + m - 1);
    lemma_minute_split(end + ms);
    let k = minutes_ceil(start + ms);
    vstd::arithmetic::div_mod::lemma_fundamental_div_mod_converse(k * m, m, k, 0);
    let b = (end + ms) / m;
    vstd::arithmetic::div_mod::lemma_fundamental_div_mod_converse(b * m, m, b, 0);
}

/// Exchange close times inside a UTC window are exactly the grid from the first close to the
/// last close, a minute apart.
pub proof fn lemma_window_grid(start: int, end: int, c: int)
    requires
        0 <= start,
        0 <= end,
    ensures
        is_close_time(c) && start <= c <= end <==> {
            &&& first_close(start) <= c <= last_close(end)
            &&& (c - first_close(start)) % (NANOSECONDS_IN_MINUTE as int) == 0
        },
        (is_close_time(c) && start <= c <= end) ==> 0 <= (c - first_close(start)) / (
        NANOSECONDS_IN_MINUTE as int) < close_count(first_close(start), last_close(end)),
{
    let m = NANOSECONDS_IN_MINUTE as int;
    let ms = NANOSECONDS_IN_MILLISECOND as int;
    lemma_close_bounds(start, end);
    let f = first_close(start);
    let kf = minutes_ceil(start + ms);
    lemma_minute_split(start + ms + m - 1);
    lemma_minute_split(end + ms);
    let kl = (end + ms) / m;
    if is_close_time(c) {
        lemma_minute_split(c + ms);
        let kc = (c + ms) / m;
        assert(c + ms == kc * m);
        assert(c - f == (kc - kf) * m) by (nonlinear_arith)
            requires
                c + ms == kc * m,
                f + ms == kf * m,
        ;
        vstd::arithmetic::div_mod::lemma_fundamental_div_mod_converse(c - f, m, kc - kf, 0);
        if start <= c {
            assert(kf <= kc) by (nonlinear_arith)
                requires
                    kc * m >= start + ms,
                    kf == (start + ms + m - 1) / m,
                    start + ms + m - 1 == ((start + ms + m - 1) / m) * m + (start + ms + m - 1) % m,
                    0 <= (start + ms + m - 1) % m < m,
                    m > 0,
            ;
        }
        if c <= end {
            assert(kc <= kl) by (nonlinear_arith)
                requires
                    kc * m <= end + ms,
                    end + ms == kl * m + (end + ms) % m,
                    0 <= (end + ms) % m < m,
                    m > 0,
            ;
        }
        if f <= c {
            assert(start <= c);
        }
        if c <= last_close(end) {
            assert(c <= end);
        }
        if start <= c <= end {
            assert(kc >= 1);
            assert(kl >= kc);
            assert(last_boundary(end) == kl * m);
            assert(kl * m >= ms) by (nonlinear_arith)
                requires
                    kl >= 1,
                    m > ms,
                    ms > 0,
            ;
            assert(last_close(end) == kl * m - ms);
            assert(last_close(end) - f == (kl - kf) * m) by (nonlinear_arith)
                requires
                    last_close(end) + ms == kl * m,
                    f + ms == kf * m,
            ;
            vstd::arithmetic::div_mod::lemma_fundamental_div_mod_converse(
                last_close(end) - f,
                m,
                kl - kf,
                0,
            );
        }
    }
    if f <= c <= last_close(end) && (c - f) % m == 0 {
        let j = (c - f) / m;
        vstd::arithmetic::div_mod::lemma_fundamental_div_mod(c - f, m);
        assert(c + ms == (kf + j) * m) by (nonlinear_arith)
            requires
                c - f == m * j,
                f + ms == kf * m,
        ;
        vstd::arithmetic::div_mod::lemma_fundamental_div_mod_converse(c + ms, m, kf + j, 0);
        assert(kf >= 1);
        assert(j >= 0);
        assert(kf + j >= 1);
        assert(c >= m - ms) by (nonlinear_arith)
            requires
                c + ms == (kf + j) * m,
                kf + j >= 1,
                m > 0,
        ;
        assert(start <= c);
        assert(c <= end) by {
            if last_boundary(end) < ms {
                assert(last_close(end) == 0);
            }
        }
    }
}

/// The first and last exchange close times inside the UTC window `[start_ns, end_ns]`.
pub fn close_window(start_ns: u64, end_ns: u64) -> (res: Result<(u64, u64), SourceError>)
    ensures
        res == spec_close_window(start_ns as int, end_ns as int),
{
    let shifted_start = match start_ns.checked_add(NANOSECONDS_IN_MILLISECOND) {
        Some(s) => s,
        None => return Err(SourceError::StartOverflows),
    };
    let minutes = shifted_start / NANOSECONDS_IN_MINUTE + if shifted_start % NANOSECONDS_IN_MINUTE
        != 0 {
        1u64
    } else {
        0u64
    };
    proof {
        lemma_minute_split(shifted_start as int);
        lemma_minute_split(shifted_start + NANOSECONDS_IN_MINUTE - 1);
        let m = NANOSECONDS_IN_MINUTE as int;
        let q = shifted_start as int / m;
        let r = shifted_start as int % m;
        if r != 0 {
            vstd::arithmetic::div_mod::lemma_fundamental_div_mod_converse(
                shifted_start + m - 1,
                m,
                q + 1,
                r - 1,
            );
        } else {
            vstd::arithmetic::div_mod::lemma_fundamental_div_mod_converse(
                shifted_start + m - 1,
                m,
                q,
                m - 1,
            );
        }
        assert(minutes == minutes_ceil(shifted_start as int));
    }
    let first_close_ns = match minutes.checked_mul(NANOSECONDS_IN_MINUTE) {
        Some(boundary) => match boundary.checked_sub(NANOSECONDS_IN_MILLISECOND) {
            Some(c) => c,
            None => return Err(SourceError::FirstCloseOverflows),
        },
        None => return Err(SourceError::FirstCloseOverflows),
    };
    proof {
        lemma_close_bounds(start_ns as int, end_ns as int);
    }
    let shifted_end = match end_ns.checked_add(NANOSECONDS_IN_MILLISECOND) {
        Some(s) => s,
        None => return Err(SourceError::EndOverflows),
    };
    let last_close_ns = match (shifted_end / NANOSECONDS_IN_MINUTE).checked_mul(
        NANOSECONDS_IN_MINUTE,
    ) {
        Some(boundary) => match boundary.checked_sub(NANOSECONDS_IN_MILLISECOND) {
            Some(c) => c,
            None => 0,
        },
        None => 0,
    };
    Ok((first_close_ns, last_close_ns))
}

} // verus!
