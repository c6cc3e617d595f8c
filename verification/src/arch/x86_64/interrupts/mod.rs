//! ``x86_64`` interrupt handling.

use vstd::prelude::*;

use idt::Idt;

pub mod apic;
pub mod handler;
pub mod idt;

verus! {

/// The first vector that is handed out.
pub const FIRST_FREE_VECTOR: u8 = 32;

/// The vector at which the vectors are exhausted.
pub const LAST_VECTOR: u8 = 0xF0;

/// Registers the handler at address `handler` for the vector. No handler
/// must be registered for the vector yet.
pub fn register_handler(idt: &mut Idt, vector: u8, handler: u64)
    requires
        old(idt).wf(),
        old(idt)@[vector as int] == idt::empty_entry(),
    ensures
        final(idt).wf(),
        final(idt)@ == old(idt)@.update(vector as int, idt::empty_entry().with_offset(handler)),
{
    idt.set_func(vector, handler);
}

/// Hands out the vectors from 32 on, one after the other.
#[derive(Debug)]
pub struct VectorAllocator {
    next: u8,
}

impl VectorAllocator {
    /// The vector that is handed out next.
    pub closed spec fn view(&self) -> u8 {
        self.next
    }

    /// An allocator that has handed out no vector.
    pub fn new() -> (r: Self)
        ensures
            r@ == FIRST_FREE_VECTOR,
    {
        Self { next: FIRST_FREE_VECTOR }
    }

    /// Whether the vectors are exhausted: the next one would be
    /// [`LAST_VECTOR`].
    pub fn exhausted(&self) -> (r: bool)
        ensures
            r == (self@ >= LAST_VECTOR),
    {
        self.next >= LAST_VECTOR
    }

    /// The next free vector. The vectors must not be exhausted.
    pub fn allocate_vector(&mut self) -> (r: u8)
        requires
            old(self)@ < LAST_VECTOR,
        ensures
            r == old(self)@,
            final(self)@ == old(self)@ + 1,
    {
        let copy = self.next;
        self.next += 1;
        copy
    }
}

} // verus!
