//! Runtime helpers called from generated code that compute on plain values.

use vstd::prelude::*;

verus! {

/// One lane of a byte shuffle: 0 when the selector's top bit is set,
/// otherwise the byte of `a` that the selector's low four bits index.
pub open spec fn shuffle_lane(a: Seq<u8>, selector: u8) -> u8 {
    if selector & 0x80u8 != 0 {
        0
    } else {
        a[(selector & 0xfu8) as int]
    }
}

/// Byte shuffle as done by the `pshufb` instruction, for machines without
/// it: lane `i` of the result is selected from `a` by byte `i` of `b`.
pub fn x86_pshufb(a: [u8; 16], b: [u8; 16]) -> (r: [u8; 16])
    ensures
        forall|i: int| 0 <= i < 16 ==> r@[i] == shuffle_lane(a@, b@[i]),
{
    let mut r: [u8; 16] = [0u8; 16];
    let mut i: usize = 0;
    while i < 16
        invariant
            i <= 16,
            r@.len() == 16,
            forall|j: int| 0 <= j < i ==> r@[j] == shuffle_lane(a@, b@[j]),
        decreases 16 - i,
    {
        let byte = b[i];
        let v = if byte & 0x80 != 0 {
            0u8
        } else {
            assert(byte & 0xfu8 < 16) by (bit_vector);
            a[(byte & 0xf) as usize]
        };
        r[i] = v;
        i = i + 1;
    }
    r
}

/// Size of a wasm page in bytes: 64 KiB.
pub const WASM_PAGE_SIZE: usize = 65536;

/// The size in bytes of a memory of `num_pages` wasm pages, as reported to
/// the memory checker when memory grows.
pub fn memory_size_in_bytes(num_pages: u32) -> (r: usize)
    requires
        num_pages * 65536 <= usize::MAX,
    ensures
        r == num_pages * 65536,
{
    num_pages as usize * WASM_PAGE_SIZE
}

/// Whether the memory checker validates loads and stores.
#[derive(Debug, Clone, Copy, PartialEq, Eq, Structural)]
pub struct MemcheckSwitch {
    pub enabled: bool,
}

impl MemcheckSwitch {
    /// Entering an allocator's `malloc`: its own accesses are not checked.
    pub fn malloc_start(&mut self)
        ensures
            !final(self).enabled,
    {
        self.enabled = false;
    }

    /// Entering an allocator's `free`: its own accesses are not checked.
    pub fn free_start(&mut self)
        ensures
            !final(self).enabled,
    {
        self.enabled = false;
    }

    /// Leaving the allocator: checking resumes.
    pub fn allocator_done(&mut self)
        ensures
            final(self).enabled,
    {
        self.enabled = true;
    }

    /// Stack-pointer updates are not tracked yet: memory below the top of
    /// the stack is treated as valid for loads and stores.
    pub fn update_stack_pointer(&mut self, _value: u32)
        ensures
            *final(self) == *old(self),
    {
    }
}

} // verus!
