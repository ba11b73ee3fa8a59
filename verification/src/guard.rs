//! The process-wide scan guard: a single-owner flag that keeps two scans
//! from running concurrently, so that no pair of passes can race to create
//! duplicate rows under one natural key. A second trigger arriving while a
//! scan is active is rejected, never run alongside it. The surrounding
//! service holds the guard under its own mutual exclusion primitive and
//! calls `try_begin` before a scan and `finish` after it.

use vstd::prelude::*;

verus! {

/// Whether a scan is currently running.
pub struct ScanGuard {
    active: bool,
}

impl View for ScanGuard {
    type V = bool;

    closed spec fn view(&self) -> bool {
        self.active
    }
}

impl ScanGuard {
    /// A fresh guard: no scan is running.
    pub fn new() -> (r: Self)
        ensures
            !r@,
    {
        ScanGuard { active: false }
    }

    /// Try to begin a scan. Succeeds exactly when no scan was running; in
    /// either case a scan is running afterwards.
    pub fn try_begin(&mut self) -> (r: bool)
        ensures
            r == !old(self)@,
            final(self)@,
    {
        if self.active {
            false
        } else {
            self.active = true;
            true
        }
    }

    /// End the running scan.
    pub fn finish(&mut self)
        ensures
            !final(self)@,
    {
        self.active = false;
    }
}

} // verus!
