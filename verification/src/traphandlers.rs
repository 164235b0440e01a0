//! Thread-local bookkeeping of wasm activations, and its hand-over across
//! fiber switches for async calls.
//!
//! Each thread keeps a list of the activations of wasm that are on its
//! stack, the youngest at the head. When an async call suspends, the
//! activations it pushed are moved off the thread into an
//! [`AsyncWasmCallState`], and pushed back when it resumes. Activations are
//! identified by their (non-null) addresses.

use vstd::prelude::*;

verus! {

/// The activations of wasm present on a thread, oldest first; the last one
/// is the head that thread-local state points to.
#[derive(Debug)]
pub struct ThreadActivations {
    entries: Vec<usize>,
}

/// The activations hold no null address and no address twice.
pub open spec fn activation_list_wf(s: Seq<usize>) -> bool {
    &&& forall|i: int| 0 <= i < s.len() ==> s[i] != 0
    &&& forall|i: int, j: int| 0 <= i < s.len() && 0 <= j < s.len() && i != j ==> s[i] != s[j]
}

/// The head of an activation list: its youngest element, or null.
pub open spec fn list_head(s: Seq<usize>) -> usize {
    if s.len() == 0 {
        0
    } else {
        s.last()
    }
}

impl View for ThreadActivations {
    type V = Seq<usize>;

    closed spec fn view(&self) -> Seq<usize> {
        self.entries@
    }
}

impl ThreadActivations {
    /// A thread with no activations.
    pub fn new() -> (r: ThreadActivations)
        ensures
            r@ == Seq::<usize>::empty(),
    {
        ThreadActivations { entries: Vec::new() }
    }

    /// The current head: the youngest activation, or null.
    pub fn head(&self) -> (r: usize)
        ensures
            r == list_head(self@),
    {
        if self.entries.len() == 0 {
            0
        } else {
            self.entries[self.entries.len() - 1]
        }
    }

    /// Pushes a new youngest activation.
    pub fn push(&mut self, state: usize)
        ensures
            final(self)@ == old(self)@.push(state),
    {
        self.entries.push(state);
    }

    /// Pops the youngest activation.
    pub fn pop(&mut self) -> (r: usize)
        requires
            old(self)@.len() > 0,
        ensures
            r == old(self)@.last(),
            final(self)@ == old(self)@.drop_last(),
    {
        self.entries.pop().unwrap()
    }
}

/// The state of the activations that an async wasm call has on its fiber
/// stack while it is suspended, oldest first.
#[derive(Debug)]
pub struct AsyncWasmCallState {
    state: Vec<usize>,
}

impl View for AsyncWasmCallState {
    type V = Seq<usize>;

    closed spec fn view(&self) -> Seq<usize> {
        self.state@
    }
}

/// The head a thread had just before an async call's activations were
/// pushed onto it; restoring pops back to it.
#[derive(Debug)]
pub struct PreviousAsyncWasmCallState {
    state: usize,
}

impl PreviousAsyncWasmCallState {
    pub closed spec fn head_spec(&self) -> usize {
        self.state
    }
}

/// The index of `x` in `s`, which holds it once.
pub open spec fn index_of(s: Seq<usize>, x: usize) -> int {
    choose|i: int| 0 <= i < s.len() && s[i] == x
}

impl AsyncWasmCallState {
    /// State with no activations.
    pub fn new() -> (r: AsyncWasmCallState)
        ensures
            r@ == Seq::<usize>::empty(),
    {
        AsyncWasmCallState { state: Vec::new() }
    }

    /// Whether the state holds no activations.
    pub fn is_null(&self) -> (r: bool)
        ensures
            r == (self@.len() == 0),
    {
        self.state.len() == 0
    }

    /// Checks that the state holds no activations.
    pub fn assert_null(&self)
        requires
            self@.len() == 0,
    {
    }

    /// Checks that the thread's head activation, if any, does not lie in
    /// `start..end` (the stack being left).
    pub fn assert_current_state_not_in_range(thread: &ThreadActivations, start: usize, end: usize)
        requires
            list_head(thread@) == 0 || !(start <= list_head(thread@) < end),
    {
    }

    /// Pushes the saved activations onto the thread, oldest first, so that
    /// the youngest becomes the head. Returns the head as it was before, to
    /// restore to when the call suspends again.
    pub fn push(self, thread: &mut ThreadActivations) -> (r: PreviousAsyncWasmCallState)
        ensures
            final(thread)@ == old(thread)@ + self@,
            r.head_spec() == list_head(old(thread)@),
    {
        let ret = PreviousAsyncWasmCallState { state: thread.head() };
        let mut i: usize = 0;
        while i < self.state.len()
            invariant
                i <= self.state@.len(),
                thread@ == old(thread)@ + self.state@.take(i as int),
            decreases self.state@.len() - i,
        {
            thread.push(self.state[i]);
            proof {
                assert(self.state@.take(i as int + 1) =~= self.state@.take(i as int).push(self.state@[i as int]));
            }
            i = i + 1;
        }
        proof {
            assert(self.state@.take(self.state@.len() as int) =~= self.state@);
        }
        ret
    }
}

impl PreviousAsyncWasmCallState {
    /// Pops the thread's activations down to the head recorded when the
    /// call's activations were pushed, and saves them, oldest first.
    pub fn restore(self, thread: &mut ThreadActivations) -> (r: AsyncWasmCallState)
        requires
            activation_list_wf(old(thread)@),
            self.head_spec() == 0 || old(thread)@.contains(self.head_spec()),
        ensures
            ({
                let k = if self.head_spec() == 0 { 0 } else { index_of(old(thread)@, self.head_spec()) + 1 };
                &&& final(thread)@ == old(thread)@.take(k)
                &&& r@ == old(thread)@.skip(k)
            }),
    {
        let thread_head = self.state;
        let ghost s0 = thread@;
        let ghost k: int = if thread_head == 0 { 0 } else { index_of(s0, thread_head) + 1 };
        proof {
            if thread_head != 0 {
                assert(0 <= index_of(s0, thread_head) < s0.len());
            }
        }
        let mut ret = AsyncWasmCallState::new();
        loop
            invariant
                activation_list_wf(s0),
                s0 == old(thread)@,
                thread_head == self.head_spec(),
                k == (if thread_head == 0 { 0 } else { index_of(s0, thread_head) + 1 }),
                0 <= k <= s0.len(),
                thread_head == 0 ==> k == 0,
                thread_head != 0 ==> 1 <= k && s0[k - 1] == thread_head,
                k <= thread@.len() <= s0.len(),
                thread@ == s0.take(thread@.len() as int),
                ret@ == s0.subrange(thread@.len() as int, s0.len() as int),
            decreases thread@.len(),
        {
            let ptr = thread.head();
            if ptr == thread_head {
                proof {
                    if thread_head == 0 {
                        assert(thread@.len() == 0);
                    } else {
                        assert(thread@.len() > 0);
                        assert(thread@.last() == s0[thread@.len() - 1]);
                        assert(s0[thread@.len() - 1] == thread_head);
                        if thread@.len() != k {
                            assert(s0[thread@.len() - 1] != s0[k - 1]);
                        }
                        assert(thread@.len() == k);
                    }
                    assert(s0.skip(k) =~= s0.subrange(k, s0.len() as int));
                    assert(thread@ == s0.take(k));
                    assert(ret@ == s0.skip(k));
                    assert(s0 == old(thread)@);
                }
                return ret;
            }
            proof {
                if thread@.len() == 0 {
                    assert(ptr == 0);
                }
                assert(thread@.len() > k) by {
                    if thread@.len() == k && k > 0 {
                        assert(thread@.last() == s0[k - 1]);
                        assert(ptr == s0[k - 1]);
                    }
                }
            }
            let ghost n = thread@.len();
            let popped = thread.pop();
            ret.state.insert(0, popped);
            proof {
                assert(thread@ =~= s0.take(n - 1));
                assert(ret@ =~= s0.subrange(n - 1, s0.len() as int));
            }
        }
    }
}

/// Pushing an async call's saved activations onto a thread and restoring
/// afterwards gives back both the saved activations and the thread's list.
pub proof fn law_restore_undoes_push(thread: Seq<usize>, saved: Seq<usize>)
    requires
        activation_list_wf(thread + saved),
    ensures
        ({
            let pushed = thread + saved;
            let head = list_head(thread);
            let k = if head == 0 { 0 } else { index_of(pushed, head) + 1 };
            &&& head == 0 || pushed.contains(head)
            &&& pushed.take(k) == thread
            &&& pushed.skip(k) == saved
        }),
{
    let pushed = thread + saved;
    let head = list_head(thread);
    if thread.len() == 0 {
        assert(pushed =~= saved);
        assert(pushed.take(0) =~= thread);
        assert(pushed.skip(0) =~= saved);
    } else {
        let n = thread.len() as int;
        assert(pushed[n - 1] == head);
        assert(head != 0);
        assert(pushed.contains(head));
        let k = index_of(pushed, head);
        assert(k == n - 1);
        assert(pushed.take(n) =~= thread);
        assert(pushed.skip(n) =~= saved);
    }
}

/// A thread-local slot: the current head, and whether per-thread
/// initialization has run; it also counts how often the per-thread
/// initializer ran.
pub struct TlsSlot {
    state: usize,
    initialized: bool,
    init_runs: Ghost<nat>,
}

/// Per-thread initialization for trap handling; nothing is needed on this
/// platform.
pub fn lazy_per_thread_init() {
}

impl TlsSlot {
    /// The head the slot holds.
    pub closed spec fn head(&self) -> usize {
        self.state
    }

    /// Whether per-thread initialization has run.
    pub closed spec fn is_initialized_spec(&self) -> bool {
        self.initialized
    }

    /// How often the per-thread initializer ran for this slot.
    pub closed spec fn init_runs(&self) -> nat {
        self.init_runs@
    }

    /// The initializer ran once if the slot is initialized, and never
    /// otherwise.
    pub open spec fn runs_match_flag(&self) -> bool {
        self.init_runs() == if self.is_initialized_spec() {
            1nat
        } else {
            0nat
        }
    }

    /// A slot before any use on its thread.
    pub fn new() -> (r: TlsSlot)
        ensures
            r.head() == 0,
            !r.is_initialized_spec(),
            r.init_runs() == 0,
            r.runs_match_flag(),
    {
        TlsSlot { state: 0, initialized: false, init_runs: Ghost(0) }
    }

    /// Runs the per-thread initializer unless the slot is initialized
    /// already, and marks it initialized.
    fn ensure_initialized(&mut self)
        ensures
            final(self).head() == old(self).head(),
            final(self).is_initialized_spec(),
            final(self).init_runs() == old(self).init_runs() + if old(self).is_initialized_spec() {
                0nat
            } else {
                1nat
            },
    {
        if !self.initialized {
            lazy_per_thread_init();
            proof {
                self.init_runs@ = self.init_runs@ + 1;
            }
        }
        self.initialized = true;
    }

    /// Configures a new head, initializing the thread first if needed, and
    /// returns the previous head. The initializer runs only if the slot was
    /// not initialized, so at most once per thread.
    pub fn replace(&mut self, val: usize) -> (r: usize)
        ensures
            r == old(self).head(),
            final(self).head() == val,
            final(self).is_initialized_spec(),
            final(self).init_runs() == old(self).init_runs() + if old(self).is_initialized_spec() {
                0nat
            } else {
                1nat
            },
            old(self).runs_match_flag() ==> final(self).runs_match_flag(),
    {
        let prev = self.state;
        self.ensure_initialized();
        self.state = val;
        prev
    }

    /// Eagerly performs per-thread initialization: the initializer runs
    /// only if the slot was not initialized, so at most once per thread.
    pub fn initialize(&mut self)
        ensures
            final(self).head() == old(self).head(),
            final(self).is_initialized_spec(),
            final(self).init_runs() == old(self).init_runs() + if old(self).is_initialized_spec() {
                0nat
            } else {
                1nat
            },
            old(self).runs_match_flag() ==> final(self).runs_match_flag(),
    {
        self.ensure_initialized();
    }

    /// Whether per-thread initialization has run.
    pub fn is_initialized(&self) -> (r: bool)
        ensures
            r == self.is_initialized_spec(),
    {
        self.initialized
    }

    /// The current head.
    pub fn get(&self) -> (r: usize)
        ensures
            r == self.head(),
    {
        self.state
    }
}

/// Converts a return code of the platform's C interface: 0 means success,
/// any other value is the operating-system error code.
pub fn cvt(rc: i32) -> (r: Result<(), i32>)
    ensures
        rc == 0 ==> r is Ok,
        rc != 0 ==> r == Err::<(), i32>(rc),
{
    match rc {
        0 => Ok(()),
        code => Err(code),
    }
}

} // verus!
