//! A pool of fiber stacks for continuations, carved out of one reserved
//! mapping.
//!
//! The mapping holds `max_stacks` slots of `stack_size` bytes each. Each
//! slot starts (at its lowest address) with a guard page; the rest is the
//! usable stack, whose top is handed out on allocation. Reserving the
//! mapping and protecting the guard pages are done outside this library.

use vstd::prelude::*;
use crate::fibre::{FiberStack, rounded_stack_size};

verus! {

/// Number of stacks in a pool.
pub const TOTAL_STACKS: u32 = 1024;

/// Errors of the stack pool.
#[derive(Debug, Clone, Copy, PartialEq, Eq, Structural)]
pub enum PoolError {
    /// The stack size exceeds addressable memory.
    StackSizeTooLarge,
    /// The total size of the stacks exceeds addressable memory.
    PoolTooLarge,
    /// The pool was configured without stacks.
    NotConfigured,
    /// All stacks are in use.
    Exhausted,
}

/// The size of one slot for stacks of `stack_size` bytes: the stack
/// rounded up to whole pages plus one guard page, or 0 when stacks are
/// disabled.
pub open spec fn slot_size(stack_size: usize, page_size: usize) -> int {
    if stack_size == 0 {
        0
    } else {
        rounded_stack_size(stack_size, page_size) + page_size
    }
}

/// The slot size for stacks of `stack_size` bytes with pages of
/// `page_size` bytes, and the size of the whole mapping for `max_stacks`
/// slots.
pub fn pool_layout(stack_size: usize, page_size: usize, max_stacks: usize) -> (r: Result<(usize, usize), PoolError>)
    requires
        page_size > 0,
    ensures
        match r {
            Ok((slot, total)) => {
                &&& slot == slot_size(stack_size, page_size)
                &&& total == slot * max_stacks
            },
            Err(e) => {
                ||| e == PoolError::StackSizeTooLarge && stack_size != 0 && (stack_size + page_size - 1
                    > usize::MAX || slot_size(stack_size, page_size) > usize::MAX)
                ||| e == PoolError::PoolTooLarge && slot_size(stack_size, page_size) * max_stacks > usize::MAX
            },
        },
{
    let slot = if stack_size == 0 {
        0
    } else {
        if stack_size > usize::MAX - (page_size - 1) {
            return Err(PoolError::StackSizeTooLarge);
        }
        let rounded = crate::fibre::round_up_to_page(stack_size, page_size);
        if rounded > usize::MAX - page_size {
            return Err(PoolError::StackSizeTooLarge);
        }
        rounded + page_size
    };
    match slot.checked_mul(max_stacks) {
        Some(total) => Ok((slot, total)),
        None => Err(PoolError::PoolTooLarge),
    }
}

/// A pool of stacks: the mapping's base address, the slot geometry, and
/// which slots are free.
#[derive(Debug)]
pub struct StackPool {
    base: usize,
    stack_size: usize,
    page_size: usize,
    max_stacks: usize,
    free: Vec<u32>,
}

/// The bottom (lowest address, start of the guard page) of slot `index`.
pub open spec fn slot_bottom(base: usize, stack_size: usize, index: int) -> int {
    base + stack_size * index
}

impl StackPool {
    pub closed spec fn base_spec(&self) -> usize {
        self.base
    }

    pub closed spec fn stack_size_spec(&self) -> usize {
        self.stack_size
    }

    pub closed spec fn page_size_spec(&self) -> usize {
        self.page_size
    }

    pub closed spec fn max_stacks_spec(&self) -> usize {
        self.max_stacks
    }

    /// The free slots.
    pub closed spec fn free_slots(&self) -> Set<u32> {
        self.free@.to_set()
    }

    /// The slots fit in the address space, each slot is larger than its
    /// guard page, and the free list holds valid slots, each once.
    pub closed spec fn wf(&self) -> bool {
        &&& self.page_size > 0
        &&& self.max_stacks <= TOTAL_STACKS
        &&& self.stack_size == 0 || self.stack_size > self.page_size
        &&& self.base + self.stack_size * self.max_stacks <= usize::MAX
        &&& self.free@.no_duplicates()
        &&& forall|i: int| 0 <= i < self.free@.len() ==> self.free@[i] < self.max_stacks
    }

    /// A pool over the mapping at `base` with `max_stacks` slots of
    /// `stack_size` bytes (guard page included), all free.
    pub fn new(base: usize, stack_size: usize, page_size: usize, max_stacks: usize) -> (r: StackPool)
        requires
            page_size > 0,
            max_stacks <= TOTAL_STACKS,
            stack_size == 0 || stack_size > page_size,
            base + stack_size * max_stacks <= usize::MAX,
        ensures
            r.wf(),
            r.base_spec() == base,
            r.stack_size_spec() == stack_size,
            r.page_size_spec() == page_size,
            r.max_stacks_spec() == max_stacks,
            forall|i: u32| r.free_slots().contains(i) <==> i < max_stacks,
    {
        let mut free: Vec<u32> = Vec::new();
        let mut i: usize = max_stacks;
        while i > 0
            invariant
                i <= max_stacks <= TOTAL_STACKS,
                free@.len() == max_stacks - i,
                forall|j: int| 0 <= j < free@.len() ==> free@[j] == max_stacks - 1 - j,
            decreases i,
        {
            i = i - 1;
            free.push(i as u32);
        }
        proof {
            assert forall|a: int, b: int| 0 <= a < free@.len() && 0 <= b < free@.len() && a != b implies free@[a]
                != free@[b] by {}
            assert forall|x: u32| free@.to_set().contains(x) <==> x < max_stacks by {
                if x < max_stacks {
                    assert(free@[max_stacks - 1 - x] == x);
                }
            }
        }
        StackPool { base, stack_size, page_size, max_stacks, free }
    }

    /// Takes a free slot and returns its index and its stack: the usable
    /// part of the slot above the guard page.
    pub fn allocate(&mut self) -> (r: Result<(usize, FiberStack), PoolError>)
        requires
            old(self).wf(),
        ensures
            final(self).wf(),
            final(self).base_spec() == old(self).base_spec(),
            final(self).stack_size_spec() == old(self).stack_size_spec(),
            final(self).page_size_spec() == old(self).page_size_spec(),
            final(self).max_stacks_spec() == old(self).max_stacks_spec(),
            old(self).stack_size_spec() == 0 ==> r == Err::<(usize, FiberStack), PoolError>(PoolError::NotConfigured),
            old(self).stack_size_spec() != 0 && old(self).free_slots().is_empty() ==> r == Err::<
                (usize, FiberStack),
                PoolError,
            >(PoolError::Exhausted),
            old(self).stack_size_spec() != 0 && !old(self).free_slots().is_empty() ==> r is Ok,
            r is Err ==> final(self).free_slots() == old(self).free_slots(),
            r matches Ok((index, stack)) ==> {
                &&& old(self).free_slots().contains(index as u32)
                &&& final(self).free_slots() == old(self).free_slots().remove(index as u32)
                &&& index < old(self).max_stacks_spec()
                &&& stack.top_spec() == slot_bottom(old(self).base_spec(), old(self).stack_size_spec(), index as int)
                    + old(self).stack_size_spec()
                &&& stack.len_spec() == old(self).stack_size_spec() - old(self).page_size_spec()
                &&& stack.is_from_raw_parts_spec()
            },
    {
        if self.stack_size == 0 {
            return Err(PoolError::NotConfigured);
        }
        let ghost f0 = self.free@;
        let index = match self.free.pop() {
            Some(i) => i,
            None => {
                proof {
                    assert(f0.len() == 0);
                    assert(f0.to_set() =~= Set::<u32>::empty());
                    assert(f0.to_set().is_empty());
                }
                return Err(PoolError::Exhausted);
            },
        };
        proof {
            assert(f0 =~= self.free@.push(index));
            assert(self.free@.to_set() =~= f0.to_set().remove(index)) by {
                assert forall|x: u32| self.free@.to_set().contains(x) implies x != index by {
                    let j = choose|j: int| 0 <= j < self.free@.len() && self.free@[j] == x;
                    assert(f0[j] == x && f0[f0.len() - 1] == index);
                }
                assert forall|x: u32| f0.to_set().contains(x) && x != index implies self.free@.to_set().contains(x) by {
                    let j = choose|j: int| 0 <= j < f0.len() && f0[j] == x;
                    assert(j != f0.len() - 1);
                    assert(self.free@[j] == x);
                }
            }
            assert(f0[f0.len() - 1] == index);
            assert(f0.to_set().contains(index));
            assert(index < self.max_stacks);
            assert(self.stack_size * index <= self.stack_size * self.max_stacks) by (nonlinear_arith)
                requires
                    index < self.max_stacks,
            ;
            assert(self.stack_size * (index + 1) <= self.stack_size * self.max_stacks) by (nonlinear_arith)
                requires
                    index < self.max_stacks,
            ;
            assert(self.stack_size * (index + 1) == self.stack_size * index + self.stack_size) by (nonlinear_arith);
        }
        let idx = index as usize;
        let bottom_of_stack = self.base + self.stack_size * idx;
        let size_without_guard = self.stack_size - self.page_size;
        let stack = FiberStack::from_raw_parts(bottom_of_stack + self.page_size, self.page_size, size_without_guard);
        Ok((idx, stack))
    }

    /// The slot index of the stack whose top is `top`, or `None` when `top`
    /// is not the top of a slot's stack.
    pub fn index_of_top(&self, top: usize) -> (r: Option<usize>)
        requires
            self.wf(),
            self.stack_size_spec() > 0,
        ensures
            r matches Some(index) ==> index < self.max_stacks_spec() && top == slot_bottom(
                self.base_spec(),
                self.stack_size_spec(),
                index as int,
            ) + self.stack_size_spec(),
            r is None ==> forall|i: int|
                0 <= i < self.max_stacks_spec() ==> top != #[trigger] slot_bottom(
                    self.base_spec(),
                    self.stack_size_spec(),
                    i,
                ) + self.stack_size_spec(),
    {
        if self.stack_size == 0 || top <= self.base {
            proof {
                assert forall|i: int| 0 <= i < self.max_stacks implies top != #[trigger] slot_bottom(
                    self.base,
                    self.stack_size,
                    i,
                ) + self.stack_size by {
                    assert(self.stack_size * i >= 0) by (nonlinear_arith)
                        requires
                            i >= 0,
                    ;
                }
            }
            return None;
        }
        let offset = top - self.base;
        if offset % self.stack_size != 0 {
            proof {
                assert forall|i: int| 0 <= i < self.max_stacks implies top != #[trigger] slot_bottom(
                    self.base,
                    self.stack_size,
                    i,
                ) + self.stack_size by {
                    if top == slot_bottom(self.base, self.stack_size, i) + self.stack_size {
                        assert(offset == self.stack_size * (i + 1)) by (nonlinear_arith)
                            requires
                                offset == top - self.base,
                                top == self.base + self.stack_size * i + self.stack_size,
                        ;
                        assert((self.stack_size * (i + 1)) % (self.stack_size as int) == 0) by (nonlinear_arith)
                            requires
                                self.stack_size > 0,
                                i >= 0,
                        ;
                    }
                }
            }
            return None;
        }
        let slots = offset / self.stack_size;
        if slots == 0 || slots > self.max_stacks {
            proof {
                assert forall|i: int| 0 <= i < self.max_stacks implies top != #[trigger] slot_bottom(
                    self.base,
                    self.stack_size,
                    i,
                ) + self.stack_size by {
                    if top == slot_bottom(self.base, self.stack_size, i) + self.stack_size {
                        assert((offset as int) / (self.stack_size as int) == i + 1) by (nonlinear_arith)
                            requires
                                offset == self.stack_size * i + self.stack_size,
                                self.stack_size > 0,
                        ;
                    }
                }
            }
            return None;
        }
        let index = slots - 1;
        proof {
            assert(offset == self.stack_size * slots) by (nonlinear_arith)
                requires
                    (offset as int) % (self.stack_size as int) == 0,
                    slots == (offset as int) / (self.stack_size as int),
                    self.stack_size > 0,
            ;
            assert(self.stack_size * slots == self.stack_size * index + self.stack_size) by (nonlinear_arith)
                requires
                    slots == index + 1,
            ;
        }
        Some(index)
    }

    /// Returns the stack whose top is `top` to the pool. The stack must
    /// have been handed out by this pool and not been returned since.
    pub fn deallocate(&mut self, top: usize) -> (r: usize)
        requires
            old(self).wf(),
            old(self).stack_size_spec() > 0,
            exists|i: int|
                0 <= i < old(self).max_stacks_spec() && !old(self).free_slots().contains(i as u32) && top
                    == #[trigger] slot_bottom(old(self).base_spec(), old(self).stack_size_spec(), i)
                    + old(self).stack_size_spec(),
        ensures
            final(self).wf(),
            final(self).base_spec() == old(self).base_spec(),
            final(self).stack_size_spec() == old(self).stack_size_spec(),
            final(self).page_size_spec() == old(self).page_size_spec(),
            final(self).max_stacks_spec() == old(self).max_stacks_spec(),
            r < old(self).max_stacks_spec(),
            top == slot_bottom(old(self).base_spec(), old(self).stack_size_spec(), r as int) + old(
                self,
            ).stack_size_spec(),
            final(self).free_slots() == old(self).free_slots().insert(r as u32),
    {
        let index = match self.index_of_top(top) {
            Some(i) => i,
            None => {
                proof {
                    let i = choose|i: int|
                        0 <= i < self.max_stacks && !self.free_slots().contains(i as u32) && top
                            == #[trigger] slot_bottom(self.base, self.stack_size, i) + self.stack_size;
                    assert(top == slot_bottom(self.base, self.stack_size, i) + self.stack_size);
                }
                return 0;
            },
        };
        proof {
            let i = choose|i: int|
                0 <= i < self.max_stacks && !self.free_slots().contains(i as u32) && top
                    == #[trigger] slot_bottom(self.base, self.stack_size, i) + self.stack_size;
            if i != index {
                assert(self.stack_size * i != self.stack_size * index) by (nonlinear_arith)
                    requires
                        self.stack_size > 0,
                        i != index,
                ;
            }
            assert(!self.free@.contains(index as u32));
        }
        let ghost f0 = self.free@;
        self.free.push(index as u32);
        proof {
            assert(self.free@ == f0.push(index as u32));
            assert forall|x: u32| self.free@.to_set().contains(x) <==> (f0.to_set().contains(x) || x == index as u32) by {
                if self.free@.to_set().contains(x) {
                    let j = choose|j: int| 0 <= j < self.free@.len() && self.free@[j] == x;
                    if j < f0.len() {
                        assert(f0[j] == x);
                    }
                }
                if f0.to_set().contains(x) {
                    let j = choose|j: int| 0 <= j < f0.len() && f0[j] == x;
                    assert(self.free@[j] == x);
                }
                if x == index as u32 {
                    assert(self.free@[f0.len() as int] == x);
                }
            }
            assert(self.free@.to_set() =~= f0.to_set().insert(index as u32));
            assert(self.free@.no_duplicates()) by {
                assert forall|a: int, b: int| 0 <= a < self.free@.len() && 0 <= b < self.free@.len() && a != b implies self.free@[a] != self.free@[b] by {
                    if a == f0.len() as int {
                        assert(f0.contains(self.free@[b]));
                    } else if b == f0.len() as int {
                        assert(f0.contains(self.free@[a]));
                    }
                }
            }
        }
        index
    }
}


impl StackPool {
    /// The addresses of the guard pages, one at the bottom of each slot, to
    /// be made inaccessible once the mapping is reserved.
    pub fn guard_pages(&self) -> (r: Vec<usize>)
        requires
            self.wf(),
        ensures
            r@.len() == self.max_stacks_spec(),
            forall|i: int| 0 <= i < r@.len() ==> r@[i] == slot_bottom(self.base_spec(), self.stack_size_spec(), i),
    {
        let mut r: Vec<usize> = Vec::new();
        let mut i: usize = 0;
        while i < self.max_stacks
            invariant
                self.wf(),
                i <= self.max_stacks,
                r@.len() == i,
                forall|j: int| 0 <= j < i ==> r@[j] == slot_bottom(self.base, self.stack_size, j),
            decreases self.max_stacks - i,
        {
            proof {
                assert(self.stack_size * i <= self.stack_size * self.max_stacks) by (nonlinear_arith)
                    requires
                        i <= self.max_stacks,
                ;
            }
            r.push(self.base + self.stack_size * i);
            i = i + 1;
        }
        r
    }
}

/// The allocator of continuation stacks: a pool of stacks reserved up
/// front.
#[derive(Debug)]
pub struct WasmFXAllocator {
    inner: StackPool,
}

impl WasmFXAllocator {
    pub closed spec fn pool(&self) -> &StackPool {
        &self.inner
    }

    /// The allocator over a pool of stacks.
    pub fn new(pool: StackPool) -> (r: WasmFXAllocator)
        ensures
            *r.pool() == pool,
    {
        WasmFXAllocator { inner: pool }
    }

    /// Takes a stack from the pool: its slot index and the stack.
    pub fn allocate(&mut self) -> (r: Result<(usize, FiberStack), PoolError>)
        requires
            old(self).pool().wf(),
        ensures
            final(self).pool().wf(),
            final(self).pool().base_spec() == old(self).pool().base_spec(),
            final(self).pool().stack_size_spec() == old(self).pool().stack_size_spec(),
            final(self).pool().max_stacks_spec() == old(self).pool().max_stacks_spec(),
            final(self).pool().page_size_spec() == old(self).pool().page_size_spec(),
            old(self).pool().stack_size_spec() == 0 ==> r == Err::<(usize, FiberStack), PoolError>(
                PoolError::NotConfigured,
            ),
            old(self).pool().stack_size_spec() != 0 && old(self).pool().free_slots().is_empty() ==> r == Err::<
                (usize, FiberStack),
                PoolError,
            >(PoolError::Exhausted),
            old(self).pool().stack_size_spec() != 0 && !old(self).pool().free_slots().is_empty() ==> r is Ok,
            r is Err ==> final(self).pool().free_slots() == old(self).pool().free_slots(),
            r matches Ok((index, stack)) ==> {
                &&& old(self).pool().free_slots().contains(index as u32)
                &&& final(self).pool().free_slots() == old(self).pool().free_slots().remove(index as u32)
                &&& index < old(self).pool().max_stacks_spec()
                &&& stack.top_spec() == slot_bottom(
                    old(self).pool().base_spec(),
                    old(self).pool().stack_size_spec(),
                    index as int,
                ) + old(self).pool().stack_size_spec()
                &&& stack.len_spec() == old(self).pool().stack_size_spec() - old(self).pool().page_size_spec()
                &&& stack.is_from_raw_parts_spec()
            },
    {
        self.inner.allocate()
    }

    /// Returns the stack whose top is `top` to the pool; it may be handed
    /// out again.
    pub fn deallocate(&mut self, top: usize) -> (r: usize)
        requires
            old(self).pool().wf(),
            old(self).pool().stack_size_spec() > 0,
            exists|i: int|
                0 <= i < old(self).pool().max_stacks_spec() && !old(self).pool().free_slots().contains(i as u32)
                    && top == #[trigger] slot_bottom(old(self).pool().base_spec(), old(self).pool().stack_size_spec(), i)
                    + old(self).pool().stack_size_spec(),
        ensures
            final(self).pool().wf(),
            top == slot_bottom(old(self).pool().base_spec(), old(self).pool().stack_size_spec(), r as int)
                + old(self).pool().stack_size_spec(),
            final(self).pool().free_slots() == old(self).pool().free_slots().insert(r as u32),
    {
        self.inner.deallocate(top)
    }
}

/// Returning a stack just taken from the pool leaves the pool's free slots
/// as they were.
pub proof fn law_deallocate_undoes_allocate(free: Set<u32>, i: u32)
    requires
        free.contains(i),
    ensures
        free.remove(i).insert(i) == free,
{
    assert(free.remove(i).insert(i) =~= free);
}

/// The slot address arithmetic round-trips: the top of slot `i`'s stack
/// leads back to slot `i`.
pub proof fn law_slot_top_identifies_slot(base: usize, stack_size: usize, i: int, j: int)
    requires
        stack_size > 0,
        0 <= i,
        0 <= j,
        slot_bottom(base, stack_size, i) + stack_size == slot_bottom(base, stack_size, j) + stack_size,
    ensures
        i == j,
{
    assert(stack_size * i == stack_size * j);
    if i != j {
        assert(stack_size * i != stack_size * j) by (nonlinear_arith)
            requires
                stack_size > 0,
                i != j,
        ;
    }
}

} // verus!
