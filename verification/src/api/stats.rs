//! Runtime statistics over consensus operations, driven by caller-supplied
//! clock readings in milliseconds.

use vstd::prelude::*;

verus! {

/// The most transaction timestamps kept.
pub const MAX_STAT_ENTRIES: usize = 10_000;

/// The most block processing times kept.
pub const MAX_BLOCK_TIMES: usize = 100;

/// Sliding-window statistics: recent transaction timestamps and block
/// processing times, all in milliseconds.
#[derive(Debug, Clone)]
pub struct Stats {
    transaction_timestamps: Vec<u64>,
    block_processing_times: Vec<u64>,
    window_seconds: u64,
}

/// The window's lower cutoff for a clock reading: the reading minus the
/// window in milliseconds, clamped at zero; an oversized window covers
/// everything.
pub open spec fn window_cutoff(window_seconds: u64, now_ms: u64) -> u64 {
    let window_ms = if window_seconds > u64::MAX / 1000 {
        u64::MAX
    } else {
        (window_seconds * 1000) as u64
    };
    if now_ms >= window_ms {
        (now_ms - window_ms) as u64
    } else {
        0
    }
}

/// The number of recorded timestamps strictly after the cutoff.
pub open spec fn count_after(s: Seq<u64>, cutoff: u64) -> int
    decreases s.len(),
{
    if s.len() == 0 {
        0
    } else {
        count_after(s.drop_last(), cutoff) + (if s.last() > cutoff {
            1int
        } else {
            0
        })
    }
}

/// The saturating sum of a sequence of durations.
pub open spec fn sum_saturating(s: Seq<u64>) -> int
    decreases s.len(),
{
    if s.len() == 0 {
        0
    } else {
        let rest = sum_saturating(s.drop_last());
        if rest + s.last() <= u64::MAX {
            rest + s.last()
        } else {
            u64::MAX as int
        }
    }
}

impl Stats {
    /// The recorded transaction timestamps, oldest first.
    pub closed spec fn timestamps(&self) -> Seq<u64> {
        self.transaction_timestamps@
    }

    /// The recorded block processing times.
    pub closed spec fn block_times(&self) -> Seq<u64> {
        self.block_processing_times@
    }

    /// The window, in seconds.
    pub closed spec fn window(&self) -> u64 {
        self.window_seconds
    }

    /// Creates empty statistics over the given window.
    pub fn new(window_seconds: u64) -> (r: Stats)
        ensures
            r.timestamps().len() == 0,
            r.block_times().len() == 0,
            r.window() == window_seconds,
    {
        Stats {
            transaction_timestamps: Vec::new(),
            block_processing_times: Vec::new(),
            window_seconds,
        }
    }

    /// Records a transaction seen at the given time and drops entries that
    /// fell out of the window or over the cap.
    pub fn record_transaction(&mut self, now_ms: u64)
        ensures
            final(self).timestamps().len() >= 1,
            final(self).timestamps().last() == now_ms,
            final(self).window() == old(self).window(),
            final(self).block_times() == old(self).block_times(),
    {
        self.transaction_timestamps.push(now_ms);
        if self.transaction_timestamps.len() > MAX_STAT_ENTRIES {
            let _ = self.transaction_timestamps.remove(0);
        }
        self.cleanup_old_entries(now_ms);
    }

    /// Records a block processing time in milliseconds.
    pub fn record_block_processing_time(&mut self, duration_ms: u64)
        ensures
            final(self).block_times().len() >= 1,
            final(self).block_times().last() == duration_ms,
            final(self).timestamps() == old(self).timestamps(),
            final(self).window() == old(self).window(),
    {
        self.block_processing_times.push(duration_ms);
        if self.block_processing_times.len() > MAX_BLOCK_TIMES {
            let _ = self.block_processing_times.remove(0);
        }
    }

    /// The number of transactions recorded inside the window ending now:
    /// exactly the recorded timestamps after the window cutoff.
    pub fn transactions_in_window(&self, now_ms: u64) -> (r: usize)
        ensures
            r <= self.timestamps().len(),
            r == count_after(self.timestamps(), window_cutoff(self.window(), now_ms)),
    {
        let window_ms = if self.window_seconds > u64::MAX / 1000 {
            u64::MAX
        } else {
            self.window_seconds * 1000
        };
        let cutoff = if now_ms >= window_ms {
            now_ms - window_ms
        } else {
            0
        };
        proof {
            assert(cutoff == window_cutoff(self.window(), now_ms));
        }
        let mut count: usize = 0;
        let mut i: usize = 0;
        while i < self.transaction_timestamps.len()
            invariant
                0 <= i <= self.timestamps().len(),
                count <= i,
                cutoff == window_cutoff(self.window(), now_ms),
                count == count_after(self.timestamps().take(i as int), cutoff),
            decreases self.timestamps().len() - i,
        {
            proof {
                assert(self.timestamps().take(i + 1int).drop_last() =~= self.timestamps().take(
                    i as int,
                ));
                assert(self.timestamps().take(i + 1int).last() == self.timestamps()[i as int]);
            }
            if self.transaction_timestamps[i] > cutoff {
                count += 1;
            }
            i += 1;
        }
        proof {
            assert(self.timestamps().take(self.timestamps().len() as int) =~= self.timestamps());
        }
        count
    }

    /// The mean block processing time in milliseconds, zero when nothing
    /// was recorded; the sum saturates.
    pub fn average_block_processing_time(&self) -> (r: u64)
        ensures
            self.block_times().len() == 0 ==> r == 0,
            self.block_times().len() > 0 ==> r == sum_saturating(self.block_times()) as u64
                / (self.block_times().len() as u64),
    {
        if self.block_processing_times.len() == 0 {
            return 0;
        }
        let mut total: u64 = 0;
        let mut i: usize = 0;
        while i < self.block_processing_times.len()
            invariant
                0 <= i <= self.block_times().len(),
                total == sum_saturating(self.block_times().take(i as int)),
            decreases self.block_times().len() - i,
        {
            let d = self.block_processing_times[i];
            proof {
                assert(self.block_times().take(i + 1int).drop_last() =~= self.block_times().take(
                    i as int,
                ));
                assert(self.block_times().take(i + 1int).last() == self.block_times()[i as int]);
            }
            if total > u64::MAX - d {
                total = u64::MAX;
                proof {
                    assert(sum_saturating(self.block_times().take(i + 1int)) == u64::MAX as int);
                }
            } else {
                total = total + d;
            }
            i += 1;
        }
        proof {
            assert(self.block_times().take(self.block_times().len() as int)
                =~= self.block_times());
        }
        total / (self.block_processing_times.len() as u64)
    }

    /// Drops timestamps older than the window ending now.
    fn cleanup_old_entries(&mut self, now_ms: u64)
        ensures
            final(self).timestamps().len() <= old(self).timestamps().len(),
            old(self).timestamps().len() > 0 ==> final(self).timestamps().len() > 0
                && final(self).timestamps().last() == old(self).timestamps().last(),
            final(self).window() == old(self).window(),
            final(self).block_times() == old(self).block_times(),
    {
        let window_ms = if self.window_seconds > u64::MAX / 1000 {
            u64::MAX
        } else {
            self.window_seconds * 1000
        };
        let cutoff = if now_ms >= window_ms {
            now_ms - window_ms
        } else {
            0
        };
        let mut keep_going = self.transaction_timestamps.len() > 1;
        while keep_going
            invariant
                self.window_seconds == old(self).window_seconds,
                self.block_processing_times@ == old(self).block_processing_times@,
                self.transaction_timestamps@.len() <= old(self).transaction_timestamps@.len(),
                old(self).transaction_timestamps@.len() > 0
                    ==> self.transaction_timestamps@.len() > 0
                    && self.transaction_timestamps@.last()
                    == old(self).transaction_timestamps@.last(),
                keep_going ==> self.transaction_timestamps@.len() > 1,
            decreases self.transaction_timestamps@.len() + (if keep_going { 1int } else { 0int }),
        {
            if self.transaction_timestamps[0] < cutoff {
                let _ = self.transaction_timestamps.remove(0);
                keep_going = self.transaction_timestamps.len() > 1;
            } else {
                keep_going = false;
            }
        }
    }
}

impl Default for Stats {
    /// The default window is one minute.
    fn default() -> (r: Stats)
        ensures
            r.timestamps().len() == 0,
            r.block_times().len() == 0,
            r.window() == 60,
    {
        Stats::new(60)
    }
}

/// Block counts for reporting.
#[derive(Debug, Clone, Copy, PartialEq, Eq, Structural)]
pub struct BlockCount {
    pub total: u64,
    pub chain: u64,
}

impl Default for BlockCount {
    /// The default count is zero.
    fn default() -> (r: BlockCount)
        ensures
            r.total == 0,
            r.chain == 0,
    {
        BlockCount { total: 0, chain: 0 }
    }
}

} // verus!
