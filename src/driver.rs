//! The benchmark driver as a state machine: it walks the trials of a
//! configuration and tells its caller, one step at a time, to purge the page
//! cache, to run a trial, or that a trial is skipped.

use vstd::prelude::*;

use crate::plan::{strategy_for, trial_at, BenchConfig, Step};

verus! {

/// Where a run stands: the position of the next trial, and whether the
/// page cache has been purged for it.
#[derive(Clone, Copy, Debug)]
pub struct Driver {
    pub config: BenchConfig,
    pub pos: usize,
    pub flushed: bool,
}

/// The driver's next state and step: a trial that is skipped is passed
/// over; a cold trial first asks for a purge; then the trial runs.
pub open spec fn next_step(d: Driver) -> (Driver, Step) {
    if d.pos >= d.config.trials() {
        (d, Step::Finished)
    } else {
        let t = trial_at(d.config, d.pos as int);
        let after = Driver { pos: (d.pos + 1) as usize, flushed: false, ..d };
        match strategy_for(d.config, t) {
            None => (after, Step::Skip(t)),
            Some(s) => if t.cold_cache && !d.flushed {
                (Driver { flushed: true, ..d }, Step::FlushCache)
            } else {
                (after, Step::Run(t, s))
            },
        }
    }
}

impl Driver {
    pub open spec fn wf(&self) -> bool {
        &&& self.config.wf()
        &&& self.pos <= self.config.trials()
        &&& self.flushed ==> {
            &&& self.pos < self.config.trials()
            &&& trial_at(self.config, self.pos as int).cold_cache
        }
    }

    /// A run that has not started.
    pub fn new(config: BenchConfig) -> (r: Driver)
        requires
            config.wf(),
        ensures
            r.wf(),
            r == (Driver { config, pos: 0, flushed: false }),
    {
        Driver { config, pos: 0, flushed: false }
    }

    /// Advances the run by one step. A trial runs right after a purge of the
    /// page cache exactly when it is cold: a warm trial is never preceded by
    /// one.
    pub fn next(&mut self) -> (r: Step)
        requires
            old(self).wf(),
        ensures
            final(self).wf(),
            (*final(self), r) == next_step(*old(self)),
            r matches Step::Run(t, _) ==> t.cold_cache == old(self).flushed,
            r is FlushCache ==> final(self).flushed && trial_at(
                final(self).config,
                final(self).pos as int,
            ).cold_cache,
    {
        let total = self.config.trial_count();
        if self.pos >= total {
            return Step::Finished;
        }
        let t = self.config.trial_at(self.pos);
        match self.config.strategy_for(&t) {
            None => {
                self.pos = self.pos + 1;
                self.flushed = false;
                Step::Skip(t)
            },
            Some(s) => {
                if t.cold_cache && !self.flushed {
                    self.flushed = true;
                    Step::FlushCache
                } else {
                    self.pos = self.pos + 1;
                    self.flushed = false;
                    Step::Run(t, s)
                }
            },
        }
    }
}

} // verus!
