//! Settings from the command line.

use vstd::prelude::*;
use crate::config::TryFromConfigSource;

verus! {

/// A flag of the command line: given or not. A flag that is given sets its
/// setting to `SWITCH`.
#[derive(Debug, PartialEq, Eq, Clone, Copy)]
pub struct Flag<const SWITCH: bool> {
    set: bool,
}

impl<const SWITCH: bool> Flag<SWITCH> {
    /// Was the flag given?
    pub closed spec fn spec_set(self) -> bool {
        self.set
    }

    /// Makes a flag that was given, or not.
    pub fn new(set: bool) -> (r: Self)
        ensures
            r.spec_set() == set,
    {
        Flag { set }
    }
}

impl<const SWITCH: bool> TryFromConfigSource<bool> for Flag<SWITCH> {
    open spec fn spec_present(&self) -> bool {
        self.spec_set()
    }

    open spec fn spec_trips(&self) -> bool {
        self.spec_set()
    }

    open spec fn spec_fails(&self) -> bool {
        false
    }

    open spec fn spec_sets(&self, before: bool, after: bool) -> bool {
        after == (if self.spec_set() {
            SWITCH
        } else {
            before
        })
    }

    fn is_present(&self) -> (r: bool) {
        self.set
    }

    fn mutate_failed(self, target_value: &mut bool, trip: &mut bool) -> (r: bool) {
        if self.set {
            *trip = true;
            *target_value = SWITCH;
        }
        false
    }
}

} // verus!
