use vstd::prelude::*;
use vstd::rwlock::{RwLock, RwLockPredicate};

use crate::port::is_valid_port;

verus! {

/// What the shared slot may hold: nothing, or a valid port.
pub open spec fn slot_ok(v: Option<u16>) -> bool {
    match v {
        None => true,
        Some(p) => is_valid_port(p as int),
    }
}

/// The invariant of the lock that guards the slot.
pub struct SlotPred {}

impl RwLockPredicate<Option<u16>> for SlotPred {
    open spec fn inv(self, v: Option<u16>) -> bool {
        slot_ok(v)
    }
}

/// A change that the supervisor asks of the shared slot.
#[derive(Clone, Copy, Debug, PartialEq, Eq, Structural)]
pub enum SlotWrite {
    /// Leave the slot as it is.
    Keep,
    /// Store a newly discovered port.
    Store(u16),
    /// Empty the slot: the child is gone or a new one is starting.
    Clear,
}

/// A thread-safe single slot holding the sidecar's current port, read by any
/// number of callers and written by the supervisor. Every read sees a whole
/// value that some write stored: nothing, or a valid port.
pub struct PortRegistry {
    lock: RwLock<Option<u16>, SlotPred>,
}

impl PortRegistry {
    #[verifier::type_invariant]
    spec fn inv(self) -> bool {
        self.lock.pred() == SlotPred {}
    }

    /// An empty registry.
    pub fn new() -> (r: PortRegistry) {
        PortRegistry { lock: RwLock::new(None, Ghost(SlotPred {})) }
    }

    /// The port currently stored, if any. Whatever other threads do meanwhile,
    /// the result is empty or a valid port.
    pub fn get(&self) -> (r: Option<u16>)
        ensures
            slot_ok(r),
    {
        proof {
            use_type_invariant(self);
        }
        let handle = self.lock.acquire_read();
        let v = *handle.borrow();
        handle.release_read();
        v
    }

    /// Stores a discovered port, replacing what was there.
    pub fn set(&self, port: u16)
        requires
            is_valid_port(port as int),
    {
        proof {
            use_type_invariant(self);
        }
        let (_, handle) = self.lock.acquire_write();
        handle.release_write(Some(port));
    }

    /// Empties the slot.
    pub fn clear(&self) {
        proof {
            use_type_invariant(self);
        }
        let (_, handle) = self.lock.acquire_write();
        handle.release_write(None);
    }

    /// Carries out a change asked for by the supervisor.
    pub fn apply(&self, w: SlotWrite)
        requires
            w matches SlotWrite::Store(p) ==> is_valid_port(p as int),
    {
        match w {
            SlotWrite::Keep => {},
            SlotWrite::Store(p) => self.set(p),
            SlotWrite::Clear => self.clear(),
        }
    }
}

} // verus!
