use std::sync::atomic::{AtomicBool, Ordering};
use std::sync::Arc;
use vstd::prelude::*;

verus! {

/// A cancellation flag shared between whoever raises an interrupt and the
/// loops that poll it before issuing new work. Clones share one flag.
pub struct InterruptIndicator {
    state: Arc<AtomicBool>,
}

impl Clone for InterruptIndicator {
    /// Another handle on the same flag.
    fn clone(&self) -> (r: InterruptIndicator) {
        InterruptIndicator { state: self.state.clone() }
    }
}

impl InterruptIndicator {
    /// A fresh flag, not yet raised.
    pub fn new() -> (r: InterruptIndicator) {
        InterruptIndicator { state: Arc::new(AtomicBool::new(false)) }
    }

    /// Raises the flag; every clone observes it from then on.
    pub fn set(&self) {
        self.state.store(true, Ordering::Relaxed);
    }

    /// Whether the flag has been raised. Another holder may raise it at any
    /// moment, so nothing is promised of the value read.
    pub fn is_set(&self) -> (r: bool) {
        self.state.load(Ordering::Relaxed)
    }
}

} // verus!
