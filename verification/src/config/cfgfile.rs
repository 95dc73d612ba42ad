//! Settings from a file. A file holds values, not text: nothing is left to
//! parse.

use vstd::prelude::*;
use crate::config::TryFromConfigSource;

verus! {

/// A setting that a file may leave out.
#[derive(Debug, PartialEq)]
pub struct Optional<T> {
    base: Option<T>,
}

impl<T> Optional<T> {
    /// The value, if the file gave one.
    pub closed spec fn spec_base(self) -> Option<T> {
        self.base
    }

    /// Makes a setting that the file gave.
    pub fn some(value: T) -> (r: Self)
        ensures
            r.spec_base() == Some(value),
    {
        Optional { base: Some(value) }
    }

    /// Makes a setting that the file gave, or left out.
    pub fn new(base: Option<T>) -> (r: Self)
        ensures
            r.spec_base() == base,
    {
        Optional { base }
    }
}

impl<T> From<Option<T>> for Optional<T> {
    fn from(base: Option<T>) -> (r: Self)
        ensures
            r.spec_base() == base,
    {
        Optional { base }
    }
}

impl<T> vstd::std_specs::convert::FromSpecImpl<Option<T>> for Optional<T> {
    open spec fn obeys_from_spec() -> bool {
        false
    }

    open spec fn from_spec(base: Option<T>) -> Self {
        arbitrary()
    }
}

impl<T> TryFromConfigSource<T> for Optional<T> {
    open spec fn spec_present(&self) -> bool {
        self.spec_base() is Some
    }

    open spec fn spec_trips(&self) -> bool {
        self.spec_base() is Some
    }

    open spec fn spec_fails(&self) -> bool {
        false
    }

    open spec fn spec_sets(&self, before: T, after: T) -> bool {
        after == (match self.spec_base() {
            Some(v) => v,
            None => before,
        })
    }

    fn is_present(&self) -> (r: bool) {
        self.base.is_some()
    }

    fn mutate_failed(self, target_value: &mut T, trip: &mut bool) -> (r: bool) {
        match self.base {
            Some(v) => {
                *trip = true;
                *target_value = v;
            },
            None => {},
        }
        false
    }
}

/// A setting that a file always gives.
#[derive(Debug, PartialEq)]
pub struct NonNull<T> {
    val: T,
}

impl<T> NonNull<T> {
    /// The value.
    pub closed spec fn spec_val(self) -> T {
        self.val
    }

    /// Makes a setting of its value.
    pub fn new(val: T) -> (r: Self)
        ensures
            r.spec_val() == val,
    {
        NonNull { val }
    }
}

impl<T> From<T> for NonNull<T> {
    fn from(val: T) -> (r: Self)
        ensures
            r.spec_val() == val,
    {
        NonNull { val }
    }
}

impl<T> vstd::std_specs::convert::FromSpecImpl<T> for NonNull<T> {
    open spec fn obeys_from_spec() -> bool {
        false
    }

    open spec fn from_spec(val: T) -> Self {
        arbitrary()
    }
}

impl<T> TryFromConfigSource<T> for NonNull<T> {
    open spec fn spec_present(&self) -> bool {
        true
    }

    open spec fn spec_trips(&self) -> bool {
        true
    }

    open spec fn spec_fails(&self) -> bool {
        false
    }

    open spec fn spec_sets(&self, before: T, after: T) -> bool {
        after == self.spec_val()
    }

    fn is_present(&self) -> (r: bool) {
        true
    }

    fn mutate_failed(self, target_value: &mut T, trip: &mut bool) -> (r: bool) {
        *target_value = self.val;
        *trip = true;
        false
    }
}

} // verus!
