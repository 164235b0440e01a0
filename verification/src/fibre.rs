//! Fibers: execution stacks for continuations and the protocol for
//! switching to and from them.
//!
//! The switch itself is performed by a small assembly routine outside this
//! library; the library decides what to pass to it, interprets what comes
//! back, and lays out the stacks.

use vstd::prelude::*;
use crate::continuation::{encode_resume_result, resume_result};
use crate::continuations::{ControlEffect, StackLimits};

verus! {

/// Identifies a tag that a continuation suspends with.
pub type TagId = u32;

/// Why control is transferred to or from a fiber.
#[derive(Debug, Clone, Copy, PartialEq, Eq, Structural)]
pub enum SwitchReasonEnum {
    /// The continuation has returned normally.
    Return,
    /// The continuation suspends; the payload is the tag to suspend with.
    Suspend,
    /// A continuation is being resumed.
    Resume,
}

/// The number that represents a switch reason in its 64-bit encoding.
pub open spec fn reason_discriminant(d: SwitchReasonEnum) -> u32 {
    match d {
        SwitchReasonEnum::Return => 0,
        SwitchReasonEnum::Suspend => 1,
        SwitchReasonEnum::Resume => 2,
    }
}

impl SwitchReasonEnum {
    /// The number that represents this reason.
    pub fn discriminant_val(&self) -> (r: u32)
        ensures
            r == reason_discriminant(*self),
    {
        match self {
            SwitchReasonEnum::Return => 0,
            SwitchReasonEnum::Suspend => 1,
            SwitchReasonEnum::Resume => 2,
        }
    }
}

/// The value passed to and returned from a stack switch. Its 64-bit
/// encoding holds the discriminant in bits 0 to 31 and `data` in bits 32 to
/// 63; `data` is the tag for `Suspend` and 0 otherwise.
#[derive(Debug, Clone, Copy, PartialEq, Eq, Structural)]
pub struct SwitchReason {
    pub discriminant: SwitchReasonEnum,
    pub data: u32,
}

/// The 64-bit encoding of a switch reason.
pub open spec fn reason_to_u64(r: SwitchReason) -> u64 {
    (r.data * 0x1_0000_0000 + reason_discriminant(r.discriminant)) as u64
}

/// Whether `val` is the encoding of a well-formed switch reason: a known
/// discriminant, and no data unless it is `Suspend`.
pub open spec fn is_reason_encoding(val: u64) -> bool {
    &&& val % 0x1_0000_0000 <= 2
    &&& val % 0x1_0000_0000 != 1 ==> val / 0x1_0000_0000 == 0
}

/// The switch reason that an encoding stands for.
pub open spec fn reason_from_u64(val: u64) -> SwitchReason {
    let d = val % 0x1_0000_0000;
    SwitchReason {
        discriminant: if d == 0 {
            SwitchReasonEnum::Return
        } else if d == 1 {
            SwitchReasonEnum::Suspend
        } else {
            SwitchReasonEnum::Resume
        },
        data: (val / 0x1_0000_0000) as u32,
    }
}

/// A reason is well formed when only `Suspend` carries data.
pub open spec fn reason_wf(r: SwitchReason) -> bool {
    r.discriminant != SwitchReasonEnum::Suspend ==> r.data == 0
}

impl SwitchReason {
    /// The continuation has returned normally.
    pub fn return_() -> (r: SwitchReason)
        ensures
            r == (SwitchReason { discriminant: SwitchReasonEnum::Return, data: 0 }),
    {
        SwitchReason { discriminant: SwitchReasonEnum::Return, data: 0 }
    }

    /// A continuation is being resumed.
    pub fn resume() -> (r: SwitchReason)
        ensures
            r == (SwitchReason { discriminant: SwitchReasonEnum::Resume, data: 0 }),
    {
        SwitchReason { discriminant: SwitchReasonEnum::Resume, data: 0 }
    }

    /// The continuation suspends with `tag`.
    pub fn suspend(tag: u32) -> (r: SwitchReason)
        ensures
            r == (SwitchReason { discriminant: SwitchReasonEnum::Suspend, data: tag }),
    {
        SwitchReason { discriminant: SwitchReasonEnum::Suspend, data: tag }
    }

    /// The 64-bit encoding of this reason.
    pub fn into_u64(self) -> (r: u64)
        ensures
            r == reason_to_u64(self),
    {
        (self.data as u64) * 0x1_0000_0000 + self.discriminant.discriminant_val() as u64
    }

    /// The reason that an encoding stands for (well formed where the
    /// encoding is).
    pub fn from_u64(val: u64) -> (r: SwitchReason)
        ensures
            r == reason_from_u64(val),
            is_reason_encoding(val) ==> reason_wf(r),
    {
        let d = val % 0x1_0000_0000;
        let discriminant = if d == 0 {
            SwitchReasonEnum::Return
        } else if d == 1 {
            SwitchReasonEnum::Suspend
        } else {
            SwitchReasonEnum::Resume
        };
        SwitchReason { discriminant, data: (val / 0x1_0000_0000) as u32 }
    }

    /// Whether this reason is a suspension.
    pub fn is_suspend(&self) -> (r: bool)
        ensures
            r == (self.discriminant == SwitchReasonEnum::Suspend),
    {
        match self.discriminant {
            SwitchReasonEnum::Suspend => true,
            _ => false,
        }
    }
}

impl From<u64> for SwitchReason {
    /// The reason that an encoding stands for.
    fn from(val: u64) -> (r: SwitchReason) {
        SwitchReason::from_u64(val)
    }
}

impl vstd::std_specs::convert::FromSpecImpl<u64> for SwitchReason {
    open spec fn obeys_from_spec() -> bool {
        true
    }

    open spec fn from_spec(val: u64) -> SwitchReason {
        reason_from_u64(val)
    }
}

impl From<SwitchReason> for u64 {
    /// The 64-bit encoding of a reason.
    fn from(r: SwitchReason) -> (v: u64) {
        r.into_u64()
    }
}

impl vstd::std_specs::convert::FromSpecImpl<SwitchReason> for u64 {
    open spec fn obeys_from_spec() -> bool {
        true
    }

    open spec fn from_spec(r: SwitchReason) -> u64 {
        reason_to_u64(r)
    }
}

/// Encoding a well-formed reason and decoding it gives the reason back.
pub proof fn law_reason_roundtrip(r: SwitchReason)
    requires
        reason_wf(r),
    ensures
        is_reason_encoding(reason_to_u64(r)),
        reason_from_u64(reason_to_u64(r)) == r,
{
    let v = r.data * 0x1_0000_0000 + reason_discriminant(r.discriminant);
    assert(v % 0x1_0000_0000 == reason_discriminant(r.discriminant));
    assert(v / 0x1_0000_0000 == r.data);
}

/// Decoding an encoding and encoding the result gives the encoding back:
/// `u64::from(SwitchReason::from(val)) == val` for every well-formed
/// encoding `val`.
pub proof fn law_reason_encoding_canonical(val: u64)
    requires
        is_reason_encoding(val),
    ensures
        reason_to_u64(reason_from_u64(val)) == val,
{
}

/// How the memory of a fiber stack was obtained, which decides how it is
/// released.
#[derive(Debug, Clone, Copy, PartialEq, Eq, Structural)]
pub enum Allocator {
    Malloc,
    Mmap,
    Custom,
}

/// An execution stack for a fiber: the address of its top and its length.
/// The stack occupies `top - len .. top`.
#[derive(Debug, Clone, Copy, PartialEq, Eq, Structural)]
pub struct FiberStack {
    top: usize,
    len: usize,
    allocator: Allocator,
}

/// Size of a machine word in bytes.
pub const WORD_SIZE: usize = 8;

impl FiberStack {
    pub closed spec fn top_spec(&self) -> usize {
        self.top
    }

    pub closed spec fn len_spec(&self) -> usize {
        self.len
    }

    pub closed spec fn allocator_spec(&self) -> Allocator {
        self.allocator
    }

    /// Whether the stack's memory is owned by whoever created it.
    pub open spec fn is_from_raw_parts_spec(&self) -> bool {
        self.allocator_spec() == Allocator::Custom
    }

    /// A stack whose `len` bytes start at `base`, whatever allocated them.
    pub fn from_raw_parts(base: usize, guard_size: usize, len: usize) -> (r: FiberStack)
        requires
            base + len <= usize::MAX,
        ensures
            r.top_spec() == base + len,
            r.len_spec() == len,
            r.allocator_spec() == Allocator::Custom,
    {
        FiberStack { top: base + len, len, allocator: Allocator::Custom }
    }

    /// A stack of `size` bytes starting at `base`, obtained from the heap
    /// allocator.
    pub fn from_malloc(base: usize, size: usize) -> (r: FiberStack)
        requires
            base + size <= usize::MAX,
        ensures
            r.top_spec() == base + size,
            r.len_spec() == size,
            r.allocator_spec() == Allocator::Malloc,
    {
        FiberStack { top: base + size, len: size, allocator: Allocator::Malloc }
    }

    /// A stack that occupies the whole mapping of `mmap_len` bytes at
    /// `base`, guard page included.
    pub fn from_mmap(base: usize, mmap_len: usize) -> (r: FiberStack)
        requires
            base + mmap_len <= usize::MAX,
        ensures
            r.top_spec() == base + mmap_len,
            r.len_spec() == mmap_len,
            r.allocator_spec() == Allocator::Mmap,
    {
        FiberStack { top: base + mmap_len, len: mmap_len, allocator: Allocator::Mmap }
    }

    /// A placeholder stack with no memory.
    pub fn unallocated() -> (r: FiberStack)
        ensures
            r.top_spec() == 0,
            r.len_spec() == 0,
            r.allocator_spec() == Allocator::Custom,
    {
        FiberStack { top: 0, len: 0, allocator: Allocator::Custom }
    }

    /// Whether the stack has no memory.
    pub fn is_unallocated(&self) -> (r: bool)
        ensures
            r == (self.len_spec() == 0),
    {
        self.len == 0
    }

    /// Whether the memory of the stack is owned by whoever created it.
    pub fn is_from_raw_parts(&self) -> (r: bool)
        ensures
            r == (self.allocator_spec() == Allocator::Custom),
    {
        match self.allocator {
            Allocator::Custom => true,
            _ => false,
        }
    }

    /// The top of the stack.
    pub fn top(&self) -> (r: Option<usize>)
        ensures
            r == Some(self.top_spec()),
    {
        Some(self.top)
    }

    /// The addresses the stack occupies, as `(start, end)`.
    pub fn range(&self) -> (r: Option<(usize, usize)>)
        requires
            self.len_spec() <= self.top_spec(),
        ensures
            r == Some(((self.top_spec() - self.len_spec()) as usize, self.top_spec())),
    {
        let base = self.top - self.len;
        Some((base, base + self.len))
    }

    /// Where the instruction pointer to resume at is saved: one word below
    /// the top of the stack.
    pub fn control_context_instruction_pointer_slot(&self) -> (r: usize)
        requires
            self.top_spec() >= 8,
        ensures
            r == self.top_spec() - 8,
    {
        self.top - 8
    }

    /// Where the frame pointer to resume with is saved: two words below the
    /// top of the stack.
    pub fn control_context_frame_pointer_slot(&self) -> (r: usize)
        requires
            self.top_spec() >= 16,
        ensures
            r == self.top_spec() - 16,
    {
        self.top - 16
    }

    /// The words to write below the top of the stack so that switching to
    /// it enters the fiber start routine, as `(address, value)` pairs:
    /// the start routine's address at TOS - 0x08, TOS - 0x10 as the future
    /// frame pointer at TOS - 0x10, TOS - 0x40 as the future stack pointer
    /// at TOS - 0x18, 0 at TOS - 0x20, then `func_ref`, `caller_vmctx`,
    /// `args_ptr` and `args_capacity` at TOS - 0x28 to TOS - 0x40.
    pub fn initialize(
        &self,
        start_routine: usize,
        func_ref: usize,
        caller_vmctx: usize,
        args_ptr: usize,
        args_capacity: usize,
    ) -> (r: Vec<(usize, usize)>)
        requires
            self.top_spec() >= 0x40,
        ensures
            r@ == launchpad(self.top_spec(), start_routine, func_ref, caller_vmctx, args_ptr, args_capacity),
    {
        let tos = self.top;
        let mut v: Vec<(usize, usize)> = Vec::new();
        v.push((tos - 0x08, start_routine));
        v.push((tos - 0x10, tos - 0x10));
        v.push((tos - 0x18, tos - 0x40));
        v.push((tos - 0x20, 0));
        v.push((tos - 0x28, func_ref));
        v.push((tos - 0x30, caller_vmctx));
        v.push((tos - 0x38, args_ptr));
        v.push((tos - 0x40, args_capacity));
        v
    }
}

/// The launchpad written below the top of stack `tos`.
pub open spec fn launchpad(
    tos: usize,
    start_routine: usize,
    func_ref: usize,
    caller_vmctx: usize,
    args_ptr: usize,
    args_capacity: usize,
) -> Seq<(usize, usize)> {
    seq![
        ((tos - 0x08) as usize, start_routine),
        ((tos - 0x10) as usize, (tos - 0x10) as usize),
        ((tos - 0x18) as usize, (tos - 0x40) as usize),
        ((tos - 0x20) as usize, 0usize),
        ((tos - 0x28) as usize, func_ref),
        ((tos - 0x30) as usize, caller_vmctx),
        ((tos - 0x38) as usize, args_ptr),
        ((tos - 0x40) as usize, args_capacity),
    ]
}

/// The size to reserve for a stack of `size` bytes: `size` rounded up to a
/// multiple of `page_size`, or one page for `size` 0.
pub open spec fn rounded_stack_size(size: usize, page_size: usize) -> usize {
    if size == 0 {
        page_size
    } else {
        ((size + (page_size - 1)) as usize) & !((page_size - 1) as usize)
    }
}

/// Rounds `size` up to a multiple of `page_size` (one page for 0).
pub fn round_up_to_page(size: usize, page_size: usize) -> (r: usize)
    requires
        page_size > 0,
        size + page_size - 1 <= usize::MAX,
    ensures
        r == rounded_stack_size(size, page_size),
{
    if size == 0 {
        page_size
    } else {
        (size + (page_size - 1)) & (!(page_size - 1))
    }
}

/// For a page size that is a power of two, the rounded size has no bits
/// below the page size set (it is a multiple of the page size), is at least
/// `size`, and exceeds it by less than a page (one page for size 0).
pub proof fn law_rounding_is_least_multiple(size: usize, page_size: usize, k: usize)
    requires
        k < usize::BITS,
        page_size == 1usize << k,
        size + page_size - 1 <= usize::MAX,
    ensures
        rounded_stack_size(size, page_size) & ((page_size - 1) as usize) == 0,
        size <= rounded_stack_size(size, page_size),
        size > 0 ==> rounded_stack_size(size, page_size) < size + page_size,
{
    assert(page_size > 0 && page_size & ((page_size - 1) as usize) == 0) by (bit_vector)
        requires
            k < usize::BITS,
            page_size == 1usize << k,
    ;
    if size > 0 {
        let s = (size + (page_size - 1)) as usize;
        let m = (page_size - 1) as usize;
        assert((s & !m) & m == 0 && s - (s & !m) == (s & m) && (s & m) <= m && (s & !m) <= s)
            by (bit_vector);
    }
}

/// The memory to map for a fiber stack: one guard page below the rounded
/// stack.
#[derive(Debug, Clone, Copy, PartialEq, Eq, Structural)]
pub struct StackMapping {
    pub page_size: usize,
    pub stack_size: usize,
    pub mmap_len: usize,
}

/// Wraps `rustix::param::page_size`: the page size of the process. The
/// value comes from the operating system; nothing is promised of it.
#[verifier::external_body]
fn host_page_size() -> (r: usize) {
    rustix::param::page_size()
}

/// The mapping for a stack of `size` bytes with pages of `page_size` bytes,
/// or `None` where the page size is 0 or the sizes do not fit in the
/// address space.
pub open spec fn mapping_for(size: usize, page_size: usize) -> Option<StackMapping> {
    if page_size > 0 && size + page_size - 1 <= usize::MAX && rounded_stack_size(size, page_size) + page_size
        <= usize::MAX {
        Some(
            StackMapping {
                page_size,
                stack_size: rounded_stack_size(size, page_size),
                mmap_len: (rounded_stack_size(size, page_size) + page_size) as usize,
            },
        )
    } else {
        None
    }
}

/// The mapping for a stack of `size` bytes with pages of `page_size` bytes,
/// or `None` where the sizes do not fit in the address space.
pub fn stack_mapping_for(size: usize, page_size: usize) -> (r: Option<StackMapping>)
    ensures
        r == mapping_for(size, page_size),
        r is Some <==> page_size > 0 && size + page_size - 1 <= usize::MAX && rounded_stack_size(
            size,
            page_size,
        ) + page_size <= usize::MAX,
        r matches Some(m) ==> {
            &&& m.page_size == page_size
            &&& m.stack_size == rounded_stack_size(size, page_size)
            &&& m.mmap_len == m.stack_size + page_size
        },
{
    if page_size == 0 || size > usize::MAX - (page_size - 1) {
        return None;
    }
    let stack_size = round_up_to_page(size, page_size);
    if stack_size > usize::MAX - page_size {
        return None;
    }
    Some(StackMapping { page_size, stack_size, mmap_len: stack_size + page_size })
}

/// The mapping for a new stack of `size` bytes, rounded to the host's page
/// size; `None` where the sizes do not fit in the address space (or the
/// host reports a page size of 0).
pub fn new_stack_mapping(size: usize) -> (r: Option<StackMapping>)
    ensures
        exists|page_size: usize| r == mapping_for(size, page_size),
        r matches Some(m) ==> {
            &&& m.page_size > 0
            &&& m.stack_size == rounded_stack_size(size, m.page_size)
            &&& m.mmap_len == m.stack_size + m.page_size
        },
{
    let page_size = host_page_size();
    stack_mapping_for(size, page_size)
}

/// A fiber: a stack and whether the computation on it has finished.
#[derive(Debug)]
pub struct Fiber {
    stack: FiberStack,
    done: bool,
}

impl Fiber {
    pub closed spec fn done_spec(&self) -> bool {
        self.done
    }

    pub closed spec fn stack_spec(&self) -> FiberStack {
        self.stack
    }

    /// A fiber on `stack` that has not run yet.
    pub fn new(stack: FiberStack) -> (f: Fiber)
        ensures
            !f.done_spec(),
            f.stack_spec() == stack,
    {
        Fiber { stack, done: false }
    }

    /// Whether the fiber has finished executing.
    pub fn done(&self) -> (r: bool)
        ensures
            r == self.done_spec(),
    {
        self.done
    }

    /// The stack of the fiber.
    pub fn stack(&self) -> (r: &FiberStack)
        ensures
            *r == self.stack_spec(),
    {
        &self.stack
    }

    /// Starts resuming the fiber: returns the top of its stack and the
    /// encoded reason to switch to it with. A finished fiber cannot be
    /// resumed. The fiber counts as finished until it suspends again.
    pub fn begin_resume(&mut self) -> (r: (usize, u64))
        requires
            !old(self).done_spec(),
        ensures
            final(self).done_spec(),
            final(self).stack_spec() == old(self).stack_spec(),
            r == (old(self).stack_spec().top_spec(), reason_to_u64(
                SwitchReason { discriminant: SwitchReasonEnum::Resume, data: 0 },
            )),
    {
        self.done = true;
        (self.stack.top, SwitchReason::resume().into_u64())
    }

    /// Starts resuming the fiber of a continuation from the runtime: the
    /// runtime's stack limit is disabled (set to 0) while the fiber runs on
    /// its own stack, and the top of the stack and the encoded reason to
    /// switch with are returned. A finished fiber cannot be resumed.
    pub fn begin_runtime_resume(&mut self, runtime_limits: &mut StackLimits) -> (r: (usize, u64))
        requires
            !old(self).done_spec(),
        ensures
            final(runtime_limits).stack_limit == 0,
            final(runtime_limits).last_wasm_entry_fp == old(runtime_limits).last_wasm_entry_fp,
            final(self).done_spec(),
            final(self).stack_spec() == old(self).stack_spec(),
            r == (old(self).stack_spec().top_spec(), reason_to_u64(
                SwitchReason { discriminant: SwitchReasonEnum::Resume, data: 0 },
            )),
    {
        runtime_limits.stack_limit = 0;
        self.begin_resume()
    }

    /// Finishes a resume from the runtime once control came back with
    /// `reason`: the fiber is finished unless it suspended, and the outcome
    /// is encoded for generated code: 0 when it returned, the tag with the
    /// top four bits set when it suspended (a tag must leave them clear).
    pub fn finish_runtime_resume(&mut self, reason: SwitchReason) -> (r: u32)
        requires
            reason.discriminant == SwitchReasonEnum::Suspend ==> reason.data & 0xf000_0000u32 == 0,
        ensures
            final(self).done_spec() == (reason.discriminant != SwitchReasonEnum::Suspend),
            final(self).stack_spec() == old(self).stack_spec(),
            r == resume_result(
                if reason.discriminant == SwitchReasonEnum::Suspend {
                    Some(reason.data)
                } else {
                    None
                },
            ),
    {
        let reason = self.finish_resume(reason);
        if reason.is_suspend() {
            encode_resume_result(Some(reason.data))
        } else {
            encode_resume_result(None)
        }
    }

    /// Records how control came back from the fiber: it is finished unless
    /// it suspended.
    pub fn finish_resume(&mut self, reason: SwitchReason) -> (r: SwitchReason)
        ensures
            final(self).done_spec() == (reason.discriminant != SwitchReasonEnum::Suspend),
            final(self).stack_spec() == old(self).stack_spec(),
            r == reason,
    {
        self.done = !reason.is_suspend();
        reason
    }

    /// Records how control came back from the fiber, as a control effect:
    /// it is finished unless it suspended.
    pub fn finish_resume_effect(&mut self, effect: ControlEffect) -> (r: ControlEffect)
        ensures
            final(self).done_spec() == !(effect is Suspend),
            final(self).stack_spec() == old(self).stack_spec(),
            r == effect,
    {
        self.done = !effect.is_suspend();
        effect
    }
}

/// The handle a running fiber uses to switch back to whoever resumed it.
#[derive(Debug, Clone, Copy, PartialEq, Eq, Structural)]
pub struct Suspend {
    top_of_stack: usize,
}

impl Suspend {
    pub closed spec fn top_spec(&self) -> usize {
        self.top_of_stack
    }

    /// The handle for the fiber whose stack top is `ptr`.
    pub fn from_top_ptr(ptr: usize) -> (r: Suspend)
        ensures
            r.top_spec() == ptr,
    {
        Suspend { top_of_stack: ptr }
    }

    /// Suspends the running fiber with `tag`: the stack top to switch
    /// through and the encoded reason to pass.
    pub fn suspend(&self, tag: TagId) -> (r: (usize, u64))
        ensures
            r == (self.top_spec(), reason_to_u64(SwitchReason { discriminant: SwitchReasonEnum::Suspend, data: tag })),
    {
        (self.top_of_stack, SwitchReason::suspend(tag).into_u64())
    }

    /// Reports that the fiber's computation has returned: the stack top to
    /// switch through and the encoded reason to pass.
    pub fn execute_finished(&self) -> (r: (usize, u64))
        ensures
            r == (self.top_spec(), reason_to_u64(SwitchReason { discriminant: SwitchReasonEnum::Return, data: 0 })),
    {
        (self.top_of_stack, SwitchReason::return_().into_u64())
    }
}

} // verus!
