//! Ownership protocol of a generated wrapper handle.
//!
//! Every wrapper the generator emits follows one state machine per
//! handle: storage is reserved at a fixed address, the foreign
//! constructor may run on it once, and the foreign destructor runs
//! exactly once at teardown — never on storage whose construction did
//! not complete. The storage address is pinned: no transition moves it,
//! because the foreign constructor may have embedded self-referential
//! pointers. This module carries that protocol as a verified model; the
//! raw-pointer machinery that performs the calls lives with the
//! generated code.

use vstd::prelude::*;

verus! {

/// Where a handle stands in its life.
#[derive(Debug, PartialEq, Eq, Clone, Copy)]
pub enum HandleState {
    /// Storage reserved, nothing constructed.
    Uninitialized,
    /// The foreign object is live in the storage.
    Constructed,
    /// The foreign object has been destroyed; the handle is inert.
    Destroyed,
}

/// One wrapper handle: its state, the pinned address of its storage,
/// and how often the destructor entry point has run.
pub struct Handle {
    state: HandleState,
    addr: u64,
    dtor_runs: u64,
}

impl Handle {
    /// The handle's position in the state machine.
    pub closed spec fn state(self) -> HandleState {
        self.state
    }

    /// The address of the reserved storage.
    pub closed spec fn address(self) -> u64 {
        self.addr
    }

    /// How often the destructor entry point has run for this handle.
    pub closed spec fn destructor_runs(self) -> u64 {
        self.dtor_runs
    }

    /// The lifecycle bookkeeping is consistent: the destructor has run
    /// exactly once in the terminal state and never before it.
    pub closed spec fn wf(self) -> bool {
        match self.state {
            HandleState::Destroyed => self.dtor_runs == 1,
            _ => self.dtor_runs == 0,
        }
    }

    /// Reserve storage at a fixed address. Nothing is constructed, so
    /// nothing may be destroyed.
    pub fn reserve(addr: u64) -> (h: Handle)
        ensures
            h.state() is Uninitialized,
            h.address() == addr,
            h.destructor_runs() == 0,
            h.wf(),
    {
        Handle { state: HandleState::Uninitialized, addr, dtor_runs: 0 }
    }

    /// Run a constructor on the reserved storage. Only uninitialized
    /// storage can be constructed, and the address does not change.
    pub fn construct(&mut self)
        requires
            old(self).state() is Uninitialized,
            old(self).wf(),
        ensures
            final(self).state() is Constructed,
            final(self).address() == old(self).address(),
            final(self).destructor_runs() == 0,
            final(self).wf(),
    {
        self.state = HandleState::Constructed;
    }

    /// Tear the handle down: the destructor entry point runs, exactly
    /// once, and the state becomes terminal. Only a live object can be
    /// torn down, and the address does not change up to this point.
    pub fn teardown(&mut self)
        requires
            old(self).state() is Constructed,
            old(self).wf(),
        ensures
            final(self).state() is Destroyed,
            final(self).address() == old(self).address(),
            final(self).destructor_runs() == old(self).destructor_runs() + 1,
            final(self).destructor_runs() == 1,
            final(self).wf(),
    {
        self.state = HandleState::Destroyed;
        self.dtor_runs = self.dtor_runs + 1;
    }

    /// The handle's current state, observably.
    pub fn current_state(&self) -> (s: HandleState)
        ensures
            s == self.state(),
    {
        self.state
    }

    /// The pinned storage address, observably.
    pub fn storage_address(&self) -> (a: u64)
        ensures
            a == self.address(),
    {
        self.addr
    }

    /// How often the destructor entry point has run, observably.
    pub fn times_destroyed(&self) -> (n: u64)
        ensures
            n == self.destructor_runs(),
    {
        self.dtor_runs
    }
}

/// Teardown law: in the terminal state the destructor entry point has
/// run exactly once, and in every other state — in particular whenever
/// construction never completed — it has not run at all.
pub proof fn lemma_teardown_exactly_once(h: Handle)
    requires
        h.wf(),
    ensures
        h.state() is Destroyed ==> h.destructor_runs() == 1,
        !(h.state() is Destroyed) ==> h.destructor_runs() == 0,
{
}

} // verus!
