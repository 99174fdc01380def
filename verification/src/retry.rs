//! Retry policies around a whole solve: run again on contradiction, either
//! forever or a bounded number of times.

use vstd::prelude::*;
use crate::pattern::GlobalStats;
use crate::propagator::PropagateError;
use crate::run::{ForbidPattern, RunOwn};
use crate::wave::Wave;
use crate::wrap::Wrap;

verus! {

/// The retry-forever policy: run again after every contradiction, with no
/// bound. Its driving loop cannot promise termination, which every verified
/// loop must, so the loop belongs to the caller: reset and collapse until a
/// run returns `Ok`. `NumTimes` is the verified bounded counterpart.
#[derive(Clone, Copy, Debug)]
pub struct Forever;

/// Retries at most the given number of times after the first attempt.
#[derive(Clone, Copy, Debug)]
pub struct NumTimes(pub usize);

impl NumTimes {
    /// Collapses, resetting and retrying on contradiction until the retry
    /// budget is spent; the last contradiction is surfaced.
    pub fn retry<W: Wrap, F: ForbidPattern>(
        self,
        run: RunOwn<W, F>,
        global_stats: &GlobalStats,
        rng: &mut rand_xorshift::XorShiftRng,
    ) -> (r: Result<Wave, PropagateError>)
        requires
            global_stats.wf(),
            run.core.wf(*global_stats),
        ensures
            r matches Ok(w) ==> w.wf(*global_stats),
    {
        let mut run = run;
        let mut remaining = self.0;
        loop
            invariant
                global_stats.wf(),
                run.core.wf(*global_stats),
                remaining <= self.0,
            decreases remaining,
        {
            match run.collapse(global_stats, rng) {
                Ok(()) => {
                    return Ok(run.into_wave());
                },
                Err(e) => {
                    if remaining == 0 {
                        return Err(e);
                    } else {
                        remaining = remaining - 1;
                    }
                },
            }
        }
    }
}

} // verus!
