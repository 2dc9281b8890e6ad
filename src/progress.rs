//! When the writer reports progress, and what it reports.
use vstd::prelude::*;

verus! {

/// Below this many files, progress is reported at a fixed interval.
pub const SMALL_RUN: usize = 1000;

/// The fixed interval for small runs.
pub const SMALL_INTERVAL: usize = 10;

pub open spec fn interval_spec(total: nat) -> nat {
    if total < SMALL_RUN {
        SMALL_INTERVAL as nat
    } else {
        total / 100
    }
}

/// The number of records between two progress reports: a fixed interval
/// for small runs, about one percent of the files for large ones.
pub fn progress_interval(total: usize) -> (r: usize)
    ensures
        r == interval_spec(total as nat),
        r >= 1,
{
    if total < SMALL_RUN {
        SMALL_INTERVAL
    } else {
        total / 100
    }
}

/// Whether a report is due once `written` records have been written.
pub fn progress_due(written: usize, interval: usize) -> (r: bool)
    requires
        interval > 0,
    ensures
        r == (written > 0 && written % interval == 0),
{
    written > 0 && written % interval == 0
}

/// The share of the files done, in whole percent, rounded down.
pub fn progress_percent(written: usize, total: usize) -> (r: usize)
    requires
        0 < total,
        written <= total,
    ensures
        r == (written as int) * 100 / (total as int),
        r <= 100,
{
    let w = written as u128;
    let t = total as u128;
    proof {
        let wi = w as int;
        let ti = t as int;
        assert(wi * 100 <= ti * 100) by (nonlinear_arith)
            requires
                wi <= ti,
        ;
        assert(wi * 100 / ti <= 100) by (nonlinear_arith)
            requires
                wi * 100 <= ti * 100,
                ti > 0,
        ;
    }
    let p = w * 100 / t;
    p as usize
}

} // verus!
