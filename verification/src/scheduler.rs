//! The collection scheduler's decision logic: when the configured interval is
//! zero the scheduler is disabled and no cycle ever runs; otherwise each tick
//! runs one collect-and-apply cycle. The blocking work — asking the source
//! and sleeping — stays with the caller, which hands the collected batch in.

use vstd::prelude::*;

use crate::measurement::Measurement;
use crate::registry::ApplyOutcome;
use crate::registry::RegisterOutcome;
use crate::registry::Registry;
use crate::registry::all_meas_wf;
use crate::registry::meas_models;
use crate::registry::reg_apply;
use crate::registry::reg_register;
use crate::registry::reg_wf;

verus! {

/// The scheduler's state: its fixed interval and how many cycles have run.
pub struct Scheduler {
    pub interval_secs: u64,
    pub cycles: u64,
}

/// What one tick does: a disabled scheduler (zero interval) stays put, an
/// enabled one runs a cycle.
pub open spec fn spec_tick(s: Scheduler) -> Scheduler {
    if s.interval_secs != 0 {
        (Scheduler { interval_secs: s.interval_secs, cycles: (s.cycles + 1) as u64 })
    } else {
        s
    }
}

/// The state after `n` ticks.
pub open spec fn spec_ticks(s: Scheduler, n: nat) -> Scheduler
    decreases n,
{
    if n == 0 {
        s
    } else {
        spec_ticks(spec_tick(s), (n - 1) as nat)
    }
}

impl Scheduler {
    /// A scheduler that has run no cycle yet.
    pub fn new(interval_secs: u64) -> (s: Scheduler)
        ensures
            s.interval_secs == interval_secs,
            s.cycles == 0,
    {
        Scheduler { interval_secs, cycles: 0 }
    }

    /// A zero interval disables the scheduler entirely.
    pub fn enabled(&self) -> (r: bool)
        ensures
            r == (self.interval_secs != 0),
    {
        self.interval_secs != 0
    }

    /// Begins one tick: reports whether a collection cycle is to run, and
    /// counts it.
    pub fn begin_cycle(&mut self) -> (run: bool)
        requires
            old(self).cycles < u64::MAX,
        ensures
            run == (old(self).interval_secs != 0),
            *final(self) == spec_tick(*old(self)),
    {
        if self.interval_secs != 0 {
            self.cycles = self.cycles + 1;
            true
        } else {
            false
        }
    }
}

/// A scheduler configured with a zero interval never runs a collection
/// cycle, however many ticks pass: its state never changes.
pub proof fn lemma_zero_interval_never_collects(s: Scheduler, n: nat)
    requires
        s.interval_secs == 0,
    ensures
        spec_ticks(s, n) == s,
    decreases n,
{
    if n > 0 {
        lemma_zero_interval_never_collects(s, (n - 1) as nat);
    }
}

/// The outcome of one collection cycle.
pub enum CycleOutcome {
    /// The measurement source failed; the cycle was skipped whole.
    SourceFailed,
    /// The batch was applied; one outcome per measurement.
    Applied(Vec<ApplyOutcome>),
}

/// Runs one collection cycle on an already-collected batch: a source failure
/// skips the cycle entirely and leaves the registry untouched; a collected
/// batch is applied whole.
pub fn run_cycle(registry: &mut Registry, collected: Option<Vec<Measurement>>) -> (o:
    CycleOutcome)
    requires
        reg_wf(old(registry)@),
    ensures
        reg_wf(final(registry)@),
        match collected {
            None => final(registry)@ == old(registry)@ && o is SourceFailed,
            Some(ms) => final(registry)@ == reg_apply(old(registry)@, meas_models(ms@)).0 && (
            o matches CycleOutcome::Applied(outs) && outs@ == reg_apply(
                old(registry)@,
                meas_models(ms@),
            ).1),
        },
{
    match collected {
        None => CycleOutcome::SourceFailed,
        Some(ms) => {
            let outs = registry.apply(&ms);
            CycleOutcome::Applied(outs)
        },
    }
}

/// The synchronous startup pass: seeds the registry from the first collected
/// batch; a failed first collection yields an error, on which the process is
/// to exit.
pub fn startup_register(registry: &mut Registry, collected: Option<Vec<Measurement>>) -> (r:
    Result<Vec<RegisterOutcome>, ()>)
    requires
        reg_wf(old(registry)@),
        match collected {
            None => true,
            Some(ms) => all_meas_wf(meas_models(ms@)),
        },
    ensures
        reg_wf(final(registry)@),
        match collected {
            None => final(registry)@ == old(registry)@ && r is Err,
            Some(ms) => final(registry)@ == reg_register(old(registry)@, meas_models(ms@)).0 && (
            r matches Ok(outs) && outs@ == reg_register(old(registry)@, meas_models(ms@)).1),
        },
{
    match collected {
        None => Err(()),
        Some(ms) => {
            let outs = registry.register(&ms);
            Ok(outs)
        },
    }
}

} // verus!
