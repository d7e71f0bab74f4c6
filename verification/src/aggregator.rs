use vstd::prelude::*;

use std::sync::atomic::AtomicBool;
use std::sync::Arc;

verus! {

/// Whether this node aggregates attestations: a flag shared by every clone of
/// the state, so that one clone's change is seen by all.
#[derive(Clone, Debug)]
pub struct AggregatorState {
    enabled: Arc<AtomicBool>,
}

impl AggregatorState {
    /// A fresh flag set to `enabled`, shared by no other state.
    pub fn new(enabled: bool) -> (r: Self) {
        Self { enabled: Arc::new(AtomicBool::new(enabled)) }
    }

    /// Whether aggregation is enabled now. Any clone may change the flag at any
    /// moment, so nothing is stated of the value read.
    pub fn is_enabled(&self) -> (r: bool) {
        self.enabled.load(std::sync::atomic::Ordering::SeqCst)
    }

    /// Sets the flag to `enabled` and returns what it held just before.
    pub fn set_enabled(&self, enabled: bool) -> (r: bool) {
        self.enabled.swap(enabled, std::sync::atomic::Ordering::SeqCst)
    }
}

} // verus!
