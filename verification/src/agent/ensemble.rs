//! Globally-asynchronous, locally-synchronous seed exchange between agents.
use vstd::prelude::*;
use crate::types::InputSeed;

verus! {

/// Whether a sync is due at `iteration` for a buffer last synced at `last`.
pub open spec fn sync_due(interval: u64, last: u64, iteration: u64) -> bool {
    interval != 0 && iteration >= last + interval
}

/// Buffer of seeds that ensemble agents deposit and drain at a fixed interval.
pub struct EnsembleSync {
    buffer: Vec<InputSeed>,
    interval: u64,
    last_sync: u64,
}

impl EnsembleSync {
    /// The seeds waiting to be synced.
    pub closed spec fn pending(&self) -> Seq<InputSeed> {
        self.buffer@
    }

    /// The sync interval, in iterations (0 disables syncing).
    pub closed spec fn spec_interval(&self) -> u64 {
        self.interval
    }

    /// Iteration of the last sync.
    pub closed spec fn spec_last_sync(&self) -> u64 {
        self.last_sync
    }

    /// A buffer with nothing pending that syncs every `interval` iterations.
    pub fn new(interval: u64) -> (s: Self)
        ensures
            s.pending() == Seq::<InputSeed>::empty(),
            s.spec_interval() == interval,
            s.spec_last_sync() == 0,
    {
        EnsembleSync { buffer: Vec::new(), interval, last_sync: 0 }
    }

    /// Puts a seed into the shared buffer.
    pub fn deposit(&mut self, seed: InputSeed)
        ensures
            final(self).pending() == old(self).pending().push(seed),
            final(self).spec_interval() == old(self).spec_interval(),
            final(self).spec_last_sync() == old(self).spec_last_sync(),
    {
        self.buffer.push(seed);
    }

    /// Whether a sync is due at `iteration`; never with a zero interval.
    pub fn should_sync(&self, iteration: u64) -> (b: bool)
        ensures
            b == sync_due(self.spec_interval(), self.spec_last_sync(), iteration),
    {
        if self.interval == 0 {
            return false;
        }
        iteration >= self.last_sync && iteration - self.last_sync >= self.interval
    }

    /// Drains the buffer and records `iteration` as the last sync.
    pub fn sync(&mut self, iteration: u64) -> (seeds: Vec<InputSeed>)
        ensures
            seeds@ == old(self).pending(),
            final(self).pending() == Seq::<InputSeed>::empty(),
            final(self).spec_last_sync() == iteration,
            final(self).spec_interval() == old(self).spec_interval(),
    {
        self.last_sync = iteration;
        let mut out: Vec<InputSeed> = Vec::new();
        std::mem::swap(&mut out, &mut self.buffer);
        out
    }

    /// Number of seeds waiting in the buffer.
    pub fn pending_count(&self) -> (n: usize)
        ensures
            n == self.pending().len(),
    {
        self.buffer.len()
    }

    /// A buffer that syncs every 20 iterations.
    pub fn default() -> (s: Self)
        ensures
            s.pending() == Seq::<InputSeed>::empty(),
            s.spec_interval() == 20,
            s.spec_last_sync() == 0,
    {
        Self::new(20)
    }
}

/// After a sync at `t`, the next sync is due exactly from `t + interval` on.
pub proof fn law_sync_resets_timer(interval: u64, t: u64, later: u64)
    requires
        interval != 0,
    ensures
        sync_due(interval, t, later) <==> later >= t + interval,
{
}

} // verus!
