//! The order of process control blocks: that of their PIDs.
use crate::os::structures::ProcessControlBlock;
use std::cmp::Ordering;
use vstd::prelude::*;
use vstd::std_specs::cmp::{PartialEqSpecImpl, PartialOrdSpecImpl};

verus! {

impl PartialEq for ProcessControlBlock {
    /// Two blocks are equal where they are of the same process.
    fn eq(&self, other: &ProcessControlBlock) -> (same: bool) {
        self.pid == other.pid
    }
}

impl PartialEqSpecImpl for ProcessControlBlock {
    open spec fn obeys_eq_spec() -> bool {
        true
    }

    open spec fn eq_spec(&self, other: &ProcessControlBlock) -> bool {
        self.pid == other.pid
    }
}

impl Eq for ProcessControlBlock {

}

impl PartialOrd for ProcessControlBlock {
    /// A block comes before another where its PID is the smaller.
    fn partial_cmp(&self, other: &ProcessControlBlock) -> (order: Option<Ordering>) {
        if self.pid < other.pid {
            Some(Ordering::Less)
        } else if self.pid == other.pid {
            Some(Ordering::Equal)
        } else {
            Some(Ordering::Greater)
        }
    }
}

impl PartialOrdSpecImpl for ProcessControlBlock {
    open spec fn obeys_partial_cmp_spec() -> bool {
        true
    }

    open spec fn partial_cmp_spec(&self, other: &ProcessControlBlock) -> Option<Ordering> {
        if self.pid < other.pid {
            Some(Ordering::Less)
        } else if self.pid == other.pid {
            Some(Ordering::Equal)
        } else {
            Some(Ordering::Greater)
        }
    }
}

} // verus!
