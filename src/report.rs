//! Small integer rules around a run: when to report progress, and the shade
//! that the viewer gives an escape time.
use vstd::prelude::*;

verus! {

/// Progress is reported once per hundredth of the rows.
pub const REPORTS_PER_RUN: usize = 100;

/// The number of dispatched rows between two progress reports; zero when the
/// grid has fewer rows than reports.
pub open spec fn report_interval(grid_size: nat) -> nat {
    grid_size / (REPORTS_PER_RUN as nat)
}

/// Whether a progress line is due once `dispatched` rows have been handed out.
pub fn should_report_progress(dispatched: usize, grid_size: usize) -> (due: bool)
    ensures
        due == (report_interval(grid_size as nat) > 0 && dispatched as nat % report_interval(grid_size as nat) == 0),
{
    let interval = grid_size / REPORTS_PER_RUN;
    interval > 0 && dispatched % interval == 0
}

/// The red level the viewer gives an escape time `t`: `(t - 1) * 32` reduced
/// modulo 255.
pub open spec fn spec_red_level(escape_time: nat) -> nat {
    (((escape_time - 1) * 32) % 255) as nat
}

/// The red level of a point that diverged after `escape_time` iterations.
pub fn red_level(escape_time: u64) -> (level: u8)
    requires
        1 <= escape_time,
        (escape_time - 1) * 32 <= u64::MAX,
    ensures
        level as nat == spec_red_level(escape_time as nat),
{
    let scaled: u64 = (escape_time - 1) * 32;
    (scaled % 255) as u8
}

} // verus!
