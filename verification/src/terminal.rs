//! Data handed to the progress display each redraw tick, and the verified
//! arithmetic over it; the rendering itself lives outside the library.

use vstd::prelude::*;

use crate::storage::TaskStatsResult;

verus! {

/// Everything one redraw of the dashboard needs: a status line, the per-status
/// counts, and running aggregates over the results seen so far.
pub struct LayoutData {
    pub log_message: String,
    pub tasks_stats_struct: TaskStatsResult,
    pub processed_tasks_count: u64,
    pub total_elapsed_time: u128,
    pub min_elapsed_time: Option<u128>,
    pub max_elapsed_time: Option<u128>,
}

/// `a + b`, saturating at the largest representable duration.
pub open spec fn spec_sat_add_u128(a: u128, b: u128) -> u128 {
    if a + b <= u128::MAX {
        (a + b) as u128
    } else {
        u128::MAX
    }
}

/// `a + 1`, saturating at the largest representable count.
pub open spec fn spec_sat_inc_u64(a: u64) -> u64 {
    if a < u64::MAX {
        (a + 1) as u64
    } else {
        a
    }
}

/// The smaller of two durations.
pub open spec fn spec_min_u128(a: u128, b: u128) -> u128 {
    if a <= b {
        a
    } else {
        b
    }
}

/// The larger of two durations.
pub open spec fn spec_max_u128(a: u128, b: u128) -> u128 {
    if a >= b {
        a
    } else {
        b
    }
}

impl LayoutData {
    /// Folds one finished attempt into the running aggregates: one more task
    /// processed, its duration added to the total, and the minimum and
    /// maximum durations updated; the first result seeds both extremes.
    pub fn record_result(&mut self, elapsed_ms: u128)
        ensures
            final(self).processed_tasks_count == spec_sat_inc_u64(old(self).processed_tasks_count),
            final(self).total_elapsed_time == spec_sat_add_u128(
                old(self).total_elapsed_time,
                elapsed_ms,
            ),
            final(self).min_elapsed_time == Some(
                match old(self).min_elapsed_time {
                    None => elapsed_ms,
                    Some(v) => spec_min_u128(v, elapsed_ms),
                },
            ),
            final(self).max_elapsed_time == Some(
                match old(self).max_elapsed_time {
                    None => elapsed_ms,
                    Some(v) => spec_max_u128(v, elapsed_ms),
                },
            ),
            final(self).log_message == old(self).log_message,
            final(self).tasks_stats_struct == old(self).tasks_stats_struct,
    {
        if self.processed_tasks_count < u64::MAX {
            self.processed_tasks_count = self.processed_tasks_count + 1;
        }
        if self.total_elapsed_time <= u128::MAX - elapsed_ms {
            self.total_elapsed_time = self.total_elapsed_time + elapsed_ms;
        } else {
            self.total_elapsed_time = u128::MAX;
        }
        self.min_elapsed_time = match self.min_elapsed_time {
            None => Some(elapsed_ms),
            Some(v) => Some(
                if v <= elapsed_ms {
                    v
                } else {
                    elapsed_ms
                },
            ),
        };
        self.max_elapsed_time = match self.max_elapsed_time {
            None => Some(elapsed_ms),
            Some(v) => Some(
                if v >= elapsed_ms {
                    v
                } else {
                    elapsed_ms
                },
            ),
        };
    }

    /// Average execution time in milliseconds over the tasks processed so
    /// far; zero before any task has finished.
    pub fn average_elapsed_time(&self) -> (r: u128)
        ensures
            r == (if self.processed_tasks_count > 0 {
                self.total_elapsed_time / (self.processed_tasks_count as u128)
            } else {
                0u128
            }),
    {
        if self.processed_tasks_count > 0 {
            self.total_elapsed_time / (self.processed_tasks_count as u128)
        } else {
            0
        }
    }
}

impl Default for LayoutData {
    /// A layout before any result has arrived: empty message, zero counts,
    /// and no minimum or maximum yet.
    fn default() -> (r: Self)
        ensures
            r.log_message@ == Seq::<char>::empty(),
            r.tasks_stats_struct == TaskStatsResult::spec_zero(),
            r.processed_tasks_count == 0,
            r.total_elapsed_time == 0,
            r.min_elapsed_time is None,
            r.max_elapsed_time is None,
    {
        Self {
            log_message: String::new(),
            tasks_stats_struct: Default::default(),
            processed_tasks_count: 0,
            total_elapsed_time: 0,
            min_elapsed_time: None,
            max_elapsed_time: None,
        }
    }
}

} // verus!
