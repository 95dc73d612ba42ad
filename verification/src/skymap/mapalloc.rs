//! Allocation of the arenas a table keeps its control bytes in.
//!
//! A table never asks the host for memory directly. It asks an [`Allocator`],
//! which either hands out an arena of empty control bytes or refuses; a
//! refusal is what "out of memory" looks like to the table.

use vstd::prelude::*;
use crate::skymap::group::EMPTY;

verus! {

/// The largest arena, in bytes, that [`Global`] hands out.
pub const MAX_ARENA: usize = 0x4000_0000;

/// An arena of `len` empty control bytes.
pub open spec fn empty_arena(len: nat) -> Seq<u8> {
    Seq::new(len, |i: int| EMPTY)
}

/// A source of arenas.
pub trait Allocator {
    /// Is the allocator sure to hand out an arena of `len` bytes? An
    /// allocator may hand out more than it is sure of, and one that depends
    /// on the state of the host is sure of nothing.
    spec fn admits(&self, len: nat) -> bool;

    /// Hands out an arena of `len` empty control bytes, or refuses.
    fn allocate(&self, len: usize) -> (r: Result<Vec<u8>, ()>)
        ensures
            r matches Ok(arena) ==> arena@ == empty_arena(len as nat),
            self.admits(len as nat) ==> r is Ok,
    ;

    /// Takes an arena back.
    fn deallocate(&self, arena: Vec<u8>)
    ;
}

/// The allocator of the host.
pub struct Global;

impl Default for Global {
    fn default() -> (r: Self)
        ensures
            r == Global,
    {
        Global
    }
}

impl Allocator for Global {
    open spec fn admits(&self, len: nat) -> bool {
        len <= MAX_ARENA
    }

    /// Hands out an arena of up to [`MAX_ARENA`] bytes, and refuses a larger
    /// one.
    fn allocate(&self, len: usize) -> (r: Result<Vec<u8>, ()>)
        ensures
            r is Ok <==> len <= MAX_ARENA,
    {
        if len > MAX_ARENA {
            return Err(());
        }
        let mut arena: Vec<u8> = Vec::with_capacity(len);
        let mut i: usize = 0;
        while i < len
            invariant
                i <= len,
                arena@ == empty_arena(i as nat),
            decreases len - i,
        {
            arena.push(EMPTY);
            i = i + 1;
            assert(arena@ =~= empty_arena(i as nat));
        }
        Ok(arena)
    }

    fn deallocate(&self, arena: Vec<u8>) {
    }
}

/// Uses the allocator `allocator` to allocate an arena of `len` bytes: asks it
/// once, and hands on what it answered.
pub fn self_allocate<A: Allocator>(allocator: &A, len: usize) -> (r: Result<Vec<u8>, ()>)
    ensures
        call_ensures(A::allocate, (allocator, len), r),
        r matches Ok(arena) ==> arena@ == empty_arena(len as nat),
        allocator.admits(len as nat) ==> r is Ok,
{
    allocator.allocate(len)
}

} // verus!
