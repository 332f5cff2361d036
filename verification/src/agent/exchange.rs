//! Bidirectional seed exchange for the fuzz <-> concolic feedback loop.
use vstd::prelude::*;
use crate::types::InputSeed;

verus! {

/// Two queues of seeds: fuzzer to concolic engine, and back.
pub struct SeedExchange {
    fuzz_to_concolic: Vec<InputSeed>,
    concolic_to_fuzz: Vec<InputSeed>,
}

impl SeedExchange {
    /// Seeds waiting for the concolic engine.
    pub closed spec fn for_concolic(&self) -> Seq<InputSeed> {
        self.fuzz_to_concolic@
    }

    /// Seeds waiting for the fuzzer.
    pub closed spec fn for_fuzz(&self) -> Seq<InputSeed> {
        self.concolic_to_fuzz@
    }

    /// Both queues empty.
    pub fn new() -> (e: Self)
        ensures
            e.for_concolic() == Seq::<InputSeed>::empty(),
            e.for_fuzz() == Seq::<InputSeed>::empty(),
    {
        SeedExchange { fuzz_to_concolic: Vec::new(), concolic_to_fuzz: Vec::new() }
    }

    /// Queues a fuzzer seed for the concolic engine.
    pub fn deposit_for_concolic(&mut self, seed: InputSeed)
        ensures
            final(self).for_concolic() == old(self).for_concolic().push(seed),
            final(self).for_fuzz() == old(self).for_fuzz(),
    {
        self.fuzz_to_concolic.push(seed);
    }

    /// Queues a concolic seed for the fuzzer.
    pub fn deposit_for_fuzz(&mut self, seed: InputSeed)
        ensures
            final(self).for_fuzz() == old(self).for_fuzz().push(seed),
            final(self).for_concolic() == old(self).for_concolic(),
    {
        self.concolic_to_fuzz.push(seed);
    }

    /// Takes every seed queued for the concolic engine, in deposit order.
    pub fn take_for_concolic(&mut self) -> (seeds: Vec<InputSeed>)
        ensures
            seeds@ == old(self).for_concolic(),
            final(self).for_concolic() == Seq::<InputSeed>::empty(),
            final(self).for_fuzz() == old(self).for_fuzz(),
    {
        let mut out: Vec<InputSeed> = Vec::new();
        std::mem::swap(&mut out, &mut self.fuzz_to_concolic);
        out
    }

    /// Takes every seed queued for the fuzzer, in deposit order.
    pub fn take_for_fuzz(&mut self) -> (seeds: Vec<InputSeed>)
        ensures
            seeds@ == old(self).for_fuzz(),
            final(self).for_fuzz() == Seq::<InputSeed>::empty(),
            final(self).for_concolic() == old(self).for_concolic(),
    {
        let mut out: Vec<InputSeed> = Vec::new();
        std::mem::swap(&mut out, &mut self.concolic_to_fuzz);
        out
    }

    /// Number of seeds waiting for the concolic engine.
    pub fn pending_for_concolic(&self) -> (n: usize)
        ensures
            n == self.for_concolic().len(),
    {
        self.fuzz_to_concolic.len()
    }

    /// Number of seeds waiting for the fuzzer.
    pub fn pending_for_fuzz(&self) -> (n: usize)
        ensures
            n == self.for_fuzz().len(),
    {
        self.concolic_to_fuzz.len()
    }

    /// Same as [`SeedExchange::new`].
    pub fn default() -> (e: Self)
        ensures
            e.for_concolic() == Seq::<InputSeed>::empty(),
            e.for_fuzz() == Seq::<InputSeed>::empty(),
    {
        Self::new()
    }
}

} // verus!
