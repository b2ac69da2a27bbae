use vstd::prelude::*;

use std::sync::Arc;
use std::sync::atomic::{AtomicBool, Ordering};

verus! {

/// What a probe of an `ActivationController` saw.
#[derive(Clone, Copy, Debug, PartialEq, Eq, Structural)]
pub enum ActivationState {
    /// The probe could not read the permit.
    Unavailable,
    /// Nobody holds the permit.
    Running,
    /// Someone holds the permit: a device is being brought online.
    Activating,
}

impl ActivationState {
    /// The probe read the permit.
    pub fn available(&self) -> (r: bool)
        ensures
            r == !(*self is Unavailable),
    {
        match *self {
            ActivationState::Unavailable => false,
            ActivationState::Running => true,
            ActivationState::Activating => true,
        }
    }

    pub fn running(&self) -> (r: bool)
        ensures
            r == (*self is Running),
    {
        match *self {
            ActivationState::Unavailable => false,
            ActivationState::Running => true,
            ActivationState::Activating => false,
        }
    }

    pub fn activating(&self) -> (r: bool)
        ensures
            r == (*self is Activating),
    {
        match *self {
            ActivationState::Unavailable => false,
            ActivationState::Running => false,
            ActivationState::Activating => true,
        }
    }
}

/// A single permit, shared by every node that brings a device online, so
/// that only one such activation runs at a time. Acquiring it never blocks:
/// a node that fails to get it tries again on a later tick.
#[derive(Clone)]
pub struct ActivationController {
    state: Arc<AtomicBool>,
}

/// Holds the permit of an `ActivationController`, and gives it back when
/// dropped.
pub struct ActivationGuard {
    state: Arc<AtomicBool>,
}

impl ActivationController {
    /// A controller whose permit is free.
    pub fn new() -> ActivationController {
        ActivationController { state: Arc::new(AtomicBool::new(false)) }
    }

    /// Takes the permit if it is free right now; `None` if it is held.
    pub fn activate(&self) -> Option<ActivationGuard> {
        match self.state.compare_exchange(false, true, Ordering::SeqCst, Ordering::SeqCst) {
            Ok(_) => Some(ActivationGuard { state: self.state.clone() }),
            Err(_) => None,
        }
    }

    /// Whether the permit is held right now. The probe never waits, and
    /// reading the permit never fails, so the answer is never `Unavailable`.
    pub fn is_activating(&self) -> (r: ActivationState)
        ensures
            !(r is Unavailable),
    {
        if self.state.load(Ordering::SeqCst) {
            ActivationState::Activating
        } else {
            ActivationState::Running
        }
    }
}

/// Relies on `AtomicBool::store`: it frees the permit and, being a plain
/// atomic write, neither panics nor opens any invariant, as a `drop` must not.
#[verifier::external_body]
fn release_permit(permit: &AtomicBool)
    opens_invariants none
    no_unwind
{
    permit.store(false, Ordering::SeqCst);
}

impl Drop for ActivationGuard {
    fn drop(&mut self)
        opens_invariants none
        no_unwind
    {
        release_permit(&self.state);
    }
}

} // verus!
