//! Byte strings of bounded length, for the names of keyspaces.

use vstd::prelude::*;
use crate::skymap::table::bytes_eq;

verus! {

/// A byte string of at most `N` bytes.
#[derive(Debug)]
pub struct Array<const N: usize> {
    stack: Vec<u8>,
}

impl<const N: usize> View for Array<N> {
    type V = Seq<u8>;

    /// The bytes.
    closed spec fn view(&self) -> Seq<u8> {
        self.stack@
    }
}

impl<const N: usize> Array<N> {
    #[verifier::type_invariant]
    spec fn bounded(self) -> bool {
        self.stack@.len() <= N
    }

    /// Makes an empty array.
    pub fn new() -> (r: Self)
        ensures
            r@ == Seq::<u8>::empty(),
    {
        Array { stack: Vec::new() }
    }

    /// Makes an array of the bytes of `bytes`, if they fit.
    pub fn try_from_slice(bytes: &[u8]) -> (r: Option<Self>)
        ensures
            match r {
                Some(a) => bytes@.len() <= N && a@ == bytes@,
                None => bytes@.len() > N,
            },
    {
        if bytes.len() <= N {
            Some(Array { stack: vstd::slice::slice_to_vec(bytes) })
        } else {
            None
        }
    }

    /// The number of bytes.
    pub fn len(&self) -> (r: usize)
        ensures
            r == self@.len(),
            r <= N,
    {
        proof {
            use_type_invariant(self);
        }
        self.stack.len()
    }

    /// The number of bytes that an array holds at most.
    pub fn capacity(&self) -> (r: usize)
        ensures
            r == N,
    {
        N
    }

    /// The number of bytes that still fit.
    pub fn remaining_cap(&self) -> (r: usize)
        ensures
            r == N - self@.len(),
    {
        proof {
            use_type_invariant(self);
        }
        N - self.stack.len()
    }

    /// Appends a byte to an array that is not full.
    pub fn push(&mut self, byte: u8)
        requires
            old(self)@.len() < N,
        ensures
            final(self)@ == old(self)@.push(byte),
    {
        let mut bytes: Vec<u8> = Vec::new();
        std::mem::swap(&mut self.stack, &mut bytes);
        bytes.push(byte);
        std::mem::swap(&mut self.stack, &mut bytes);
    }

    /// Appends a byte if it fits, and says whether it did.
    pub fn try_push(&mut self, byte: u8) -> (r: bool)
        ensures
            r == (old(self)@.len() < N),
            final(self)@ == (if r {
                old(self)@.push(byte)
            } else {
                old(self)@
            }),
    {
        if self.stack.len() < N {
            self.push(byte);
            true
        } else {
            false
        }
    }

    /// The bytes.
    pub fn as_slice(&self) -> (r: &[u8])
        ensures
            r@ == self@,
    {
        self.stack.as_slice()
    }

    /// The bytes, as a vector.
    pub fn into_vec(self) -> (r: Vec<u8>)
        ensures
            r@ == self@,
    {
        self.stack
    }
}

impl<const N: usize> Clone for Array<N> {
    fn clone(&self) -> (r: Self)
        ensures
            r@ == self@,
    {
        proof {
            use_type_invariant(self);
        }
        Array { stack: vstd::slice::slice_to_vec(self.stack.as_slice()) }
    }
}

impl<const N: usize> PartialEq for Array<N> {
    fn eq(&self, other: &Self) -> (r: bool) {
        bytes_eq(self.stack.as_slice(), other.stack.as_slice())
    }
}

impl<const N: usize> vstd::std_specs::cmp::PartialEqSpecImpl for Array<N> {
    open spec fn obeys_eq_spec() -> bool {
        true
    }

    open spec fn eq_spec(&self, other: &Self) -> bool {
        self@ == other@
    }
}

} // verus!
