//! Per-sink peak levels, written by the capture streams on the PipeWire
//! thread and read by the level bars.

use vstd::prelude::*;
use std::sync::Arc;
use std::sync::atomic::AtomicU32;

verus! {

/// One peak atomic per virtual sink; each holds the loudest sample seen
/// since the last read, as the bits of an `f32`.
pub struct LevelMeters {
    aux: Arc<AtomicU32>,
    main: Arc<AtomicU32>,
}

#[verifier::external_body]
/// `Arc::clone`: another handle on the same atomic.
pub(crate) fn share(a: &Arc<AtomicU32>) -> (r: Arc<AtomicU32>)
    ensures
        r == *a,
{
    Arc::clone(a)
}

impl LevelMeters {
    /// The atomics of the Aux and Main sinks.
    pub closed spec fn atomics(&self) -> (Arc<AtomicU32>, Arc<AtomicU32>) {
        (self.aux, self.main)
    }

    /// Two fresh meters, each starting at zero. What an atomic holds is not
    /// modelled, so the contract says nothing of the new meters.
    pub fn new() -> (r: LevelMeters) {
        LevelMeters { aux: Arc::new(AtomicU32::new(0)), main: Arc::new(AtomicU32::new(0)) }
    }

    /// Handles on the (aux, main) atomics that the capture streams write into.
    pub fn atoms(&self) -> (r: (Arc<AtomicU32>, Arc<AtomicU32>))
        ensures
            r == self.atomics(),
    {
        (share(&self.aux), share(&self.main))
    }
}

impl Default for LevelMeters {
    fn default() -> (r: LevelMeters) {
        LevelMeters::new()
    }
}

} // verus!
