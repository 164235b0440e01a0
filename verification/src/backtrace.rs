//! Backtraces of wasm stacks.
//!
//! Walking the wasm stack means identifying the contiguous sequences of
//! wasm frames (each entered from the host through a trampoline) and then
//! following the frame-pointer chain within each sequence, from the exit
//! frame pointer up to the trampoline's stack pointer. Reading a frame's
//! saved return address and older frame pointer is a memory access done
//! outside this library; the library decides where the walk goes next.

use vstd::prelude::*;

verus! {

/// A stack frame within a wasm stack trace.
#[derive(Debug, Clone, Copy, PartialEq, Eq, Structural)]
pub struct Frame {
    pc: usize,
    fp: usize,
}

impl Frame {
    pub closed spec fn pc_spec(&self) -> usize {
        self.pc
    }

    pub closed spec fn fp_spec(&self) -> usize {
        self.fp
    }

    /// The frame with program counter `pc` and frame pointer `fp`.
    pub fn new(pc: usize, fp: usize) -> (r: Frame)
        ensures
            r.pc_spec() == pc,
            r.fp_spec() == fp,
    {
        Frame { pc, fp }
    }

    /// This frame's program counter.
    pub fn pc(&self) -> (r: usize)
        ensures
            r == self.pc_spec(),
    {
        self.pc
    }

    /// This frame's frame pointer.
    pub fn fp(&self) -> (r: usize)
        ensures
            r == self.fp_spec(),
    {
        self.fp
    }
}

/// A wasm stack trace, youngest frame first.
#[derive(Debug)]
pub struct Backtrace(Vec<Frame>);

impl View for Backtrace {
    type V = Seq<Frame>;

    closed spec fn view(&self) -> Seq<Frame> {
        self.0@
    }
}

impl Backtrace {
    /// An empty backtrace.
    pub fn empty() -> (r: Backtrace)
        ensures
            r@ == Seq::<Frame>::empty(),
    {
        Backtrace(Vec::new())
    }

    /// The backtrace made of `frames`, youngest first.
    pub fn from_frames(frames: Vec<Frame>) -> (r: Backtrace)
        ensures
            r@ == frames@,
    {
        Backtrace(frames)
    }

    /// Appends the next older frame.
    pub fn push(&mut self, frame: Frame)
        ensures
            final(self)@ == old(self)@.push(frame),
    {
        self.0.push(frame);
    }

    /// The frames of this backtrace, youngest first.
    pub fn frames(&self) -> (r: &[Frame])
        ensures
            r@ == self@,
    {
        self.0.as_slice()
    }
}

/// Whether the frame pointer `fp` has reached the trampoline whose stack
/// pointer is `entry_sp`: stacks grow down, so the trampoline lies at or
/// above its stack pointer.
pub open spec fn reached_entry_sp(fp: usize, entry_sp: usize) -> bool {
    fp >= entry_sp
}

/// Where a walk through a contiguous sequence of wasm frames goes after
/// one frame.
#[derive(Debug, Clone, Copy, PartialEq, Eq, Structural)]
pub enum WalkStep {
    /// The next older frame belongs to the trampoline: the sequence ends.
    Done,
    /// The next older wasm frame.
    Next(Frame),
}

/// The step from a wasm frame whose saved return address is `older_pc`
/// and saved frame pointer is `older_fp`: `None` where the walk ends, else
/// the program counter and frame pointer of the next older frame.
pub open spec fn walk_step_spec(older_pc: usize, older_fp: usize, trampoline_sp: usize) -> Option<(usize, usize)> {
    if reached_entry_sp(older_fp, trampoline_sp) {
        None
    } else {
        Some((older_pc, older_fp))
    }
}

/// Decides the step after the wasm frame at `fp` (which lies at or below
/// `trampoline_sp`), given the return address and older frame pointer saved
/// in that frame. Since the stack grows down, an older wasm frame pointer
/// must be greater than `fp`.
pub fn walk_step(fp: usize, trampoline_sp: usize, older_pc: usize, older_fp: usize) -> (r: WalkStep)
    requires
        trampoline_sp >= fp,
        reached_entry_sp(older_fp, trampoline_sp) || older_fp > fp,
    ensures
        match walk_step_spec(older_pc, older_fp, trampoline_sp) {
            None => r == WalkStep::Done,
            Some((pc, nfp)) => r matches WalkStep::Next(f) && f.pc_spec() == pc && f.fp_spec() == nfp,
        },
        r matches WalkStep::Next(f) ==> fp < f.fp_spec() < trampoline_sp,
{
    if older_fp >= trampoline_sp {
        WalkStep::Done
    } else {
        WalkStep::Next(Frame { pc: older_pc, fp: older_fp })
    }
}

/// A walk within one sequence of wasm frames ends: every step either stops
/// or moves to a frame strictly between the current one and the trampoline,
/// so there are at most `trampoline_sp - fp` steps.
pub proof fn law_walk_terminates(fp: usize, trampoline_sp: usize, older_pc: usize, older_fp: usize)
    requires
        trampoline_sp >= fp,
        reached_entry_sp(older_fp, trampoline_sp) || older_fp > fp,
    ensures
        walk_step_spec(older_pc, older_fp, trampoline_sp) matches Some((_, nfp)) ==> 0 <= trampoline_sp
            - nfp < trampoline_sp - fp,
{
}

/// One activation of wasm on a stack: where wasm was last exited and entered.
#[derive(Debug, Clone, Copy, PartialEq, Eq, Structural)]
pub struct Activation {
    pub exit_pc: usize,
    pub exit_fp: usize,
    pub entry_sp: usize,
}

/// The number of leading activations that hold wasm: those before the
/// first one with a null exit program counter.
pub open spec fn live_count(acts: Seq<Activation>) -> nat
    decreases acts.len(),
{
    if acts.len() == 0 || acts[0].exit_pc == 0 {
        0
    } else {
        1 + live_count(acts.drop_first())
    }
}

/// The live count is the length of the prefix of activations with a
/// non-null exit program counter that ends at a null one or at the end.
proof fn lemma_live_count(acts: Seq<Activation>, r: int)
    requires
        0 <= r <= acts.len(),
        forall|i: int| 0 <= i < r ==> acts[i].exit_pc != 0,
        r < acts.len() ==> acts[r].exit_pc == 0,
    ensures
        live_count(acts) == r,
    decreases r,
{
    if r > 0 {
        let t = acts.drop_first();
        assert forall|i: int| 0 <= i < r - 1 implies t[i].exit_pc != 0 by {
            assert(t[i] == acts[i + 1]);
        }
        if r < acts.len() {
            assert(t[r - 1] == acts[r]);
        }
        lemma_live_count(t, r - 1);
    }
}

/// The number of leading activations to walk: those before the first one
/// with a null exit program counter (for which the frame pointer and stack
/// pointer are null as well).
pub fn live_activations(acts: &[Activation]) -> (r: usize)
    ensures
        r == live_count(acts@),
        r <= acts@.len(),
        forall|i: int| 0 <= i < r ==> acts@[i].exit_pc != 0,
        r < acts@.len() ==> acts@[r as int].exit_pc == 0,
{
    let mut i: usize = 0;
    while i < acts.len()
        invariant
            i <= acts@.len(),
            forall|j: int| 0 <= j < i ==> acts@[j].exit_pc != 0,
        decreases acts@.len() - i,
    {
        if acts[i].exit_pc == 0 {
            proof {
                lemma_live_count(acts@, i as int);
            }
            return i;
        }
        i = i + 1;
    }
    proof {
        lemma_live_count(acts@, i as int);
    }
    i
}

/// The activations to walk for a trace: the current one, taken from the
/// runtime limits (or from the trap state when a trap was caught), followed
/// by the older activations of the same store, up to the first that holds no
/// wasm.
pub fn activations_to_walk(current: Activation, older: &[Activation]) -> (r: Vec<Activation>)
    ensures
        r@.len() <= older@.len() + 1,
        current.exit_pc != 0 <==> r@.len() > 0,
        r@.len() > 0 ==> r@[0] == current,
        forall|i: int| 0 <= i < r@.len() ==> r@[i].exit_pc != 0,
        forall|i: int| 1 <= i < r@.len() ==> r@[i] == older@[i - 1],
        r@.len() > 0 && r@.len() < older@.len() + 1 ==> older@[r@.len() - 1].exit_pc == 0,
{
    let mut r: Vec<Activation> = Vec::new();
    if current.exit_pc == 0 {
        return r;
    }
    r.push(current);
    let n = live_activations(older);
    let mut i: usize = 0;
    while i < n
        invariant
            n <= older@.len(),
            i <= n,
            forall|j: int| 0 <= j < n ==> older@[j].exit_pc != 0,
            n < older@.len() ==> older@[n as int].exit_pc == 0,
            r@.len() == i + 1,
            r@[0] == current,
            current.exit_pc != 0,
            forall|j: int| 1 <= j < r@.len() ==> r@[j] == older@[j - 1],
        decreases n - i,
    {
        r.push(older[i]);
        i = i + 1;
    }
    r
}

/// The live count is the length of the longest prefix of activations with
/// a non-null exit program counter.
proof fn lemma_live_count_prefix(acts: Seq<Activation>)
    ensures
        live_count(acts) <= acts.len(),
        forall|i: int| 0 <= i < live_count(acts) ==> #[trigger] acts[i].exit_pc != 0,
        live_count(acts) < acts.len() ==> acts[live_count(acts) as int].exit_pc == 0,
    decreases acts.len(),
{
    if acts.len() > 0 && acts[0].exit_pc != 0 {
        let t = acts.drop_first();
        lemma_live_count_prefix(t);
        assert forall|i: int| 0 <= i < live_count(acts) implies #[trigger] acts[i].exit_pc != 0 by {
            if i > 0 {
                assert(acts[i] == t[i - 1]);
            }
        }
        if live_count(acts) < acts.len() {
            assert(acts[live_count(acts) as int] == t[live_count(t) as int]);
        }
    }
}

/// One contiguous sequence of wasm frames to walk: the youngest frame's
/// program counter and frame pointer, and the frame pointer of the
/// trampoline that ends the sequence.
#[derive(Debug, Clone, Copy, PartialEq, Eq, Structural)]
pub struct WasmSegment {
    pub pc: usize,
    pub fp: usize,
    pub trampoline_fp: usize,
}

/// The frames of an activation on the stack that ran it last: from where
/// wasm was exited up to where it was entered.
pub open spec fn activation_segment(a: Activation) -> WasmSegment {
    WasmSegment { pc: a.exit_pc, fp: a.exit_fp, trampoline_fp: a.entry_sp }
}

/// The frames of a parent stack: from where its child continuation will
/// return to it (saved in the child's control context) up to the parent's
/// last wasm entry.
pub open spec fn parent_segment(resume: (usize, usize), parent_entry_fp: usize) -> WasmSegment {
    WasmSegment { pc: resume.0, fp: resume.1, trampoline_fp: parent_entry_fp }
}

/// The sequences of wasm frames a trace walks, youngest first: the running
/// stack of the current activation; then, for each continuation of the
/// active chain from the running one, its parent's frames; then each older
/// activation that holds wasm (older activations run on the main stack).
/// Nothing when the current activation holds no wasm.
pub open spec fn trace_plan_spec(
    current: Activation,
    older: Seq<Activation>,
    resumes: Seq<(usize, usize)>,
    parent_entry_fps: Seq<usize>,
) -> Seq<WasmSegment> {
    if current.exit_pc == 0 {
        Seq::empty()
    } else {
        seq![activation_segment(current)] + Seq::new(
            resumes.len(),
            |i: int| parent_segment(resumes[i], parent_entry_fps[i]),
        ) + Seq::new(live_count(older), |i: int| activation_segment(older[i]))
    }
}

/// Plans a trace (see [`trace_plan_spec`]): `resumes[i]` is the resume
/// point saved by the `i`-th continuation of the active chain, and
/// `parent_entry_fps[i]` its parent's last wasm entry frame pointer.
pub fn trace_plan(
    current: Activation,
    older: &[Activation],
    resumes: &[(usize, usize)],
    parent_entry_fps: &[usize],
) -> (r: Vec<WasmSegment>)
    requires
        resumes@.len() == parent_entry_fps@.len(),
    ensures
        r@ == trace_plan_spec(current, older@, resumes@, parent_entry_fps@),
{
    let mut r: Vec<WasmSegment> = Vec::new();
    if current.exit_pc == 0 {
        return r;
    }
    r.push(WasmSegment { pc: current.exit_pc, fp: current.exit_fp, trampoline_fp: current.entry_sp });
    let ghost first = seq![activation_segment(current)];
    let mut i: usize = 0;
    while i < resumes.len()
        invariant
            i <= resumes@.len(),
            resumes@.len() == parent_entry_fps@.len(),
            r@ == first + Seq::new(i as nat, |j: int| parent_segment(resumes@[j], parent_entry_fps@[j])),
        decreases resumes@.len() - i,
    {
        let (pc, fp) = resumes[i];
        r.push(WasmSegment { pc, fp, trampoline_fp: parent_entry_fps[i] });
        i = i + 1;
        assert(r@ =~= first + Seq::new(i as nat, |j: int| parent_segment(resumes@[j], parent_entry_fps@[j])));
    }
    let ghost middle = r@;
    let n = live_activations(older);
    let mut k: usize = 0;
    while k < n
        invariant
            n == live_count(older@),
            n <= older@.len(),
            k <= n,
            r@ == middle + Seq::new(k as nat, |j: int| activation_segment(older@[j])),
        decreases n - k,
    {
        let a = older[k];
        r.push(WasmSegment { pc: a.exit_pc, fp: a.exit_fp, trampoline_fp: a.entry_sp });
        k = k + 1;
        assert(r@ =~= middle + Seq::new(k as nat, |j: int| activation_segment(older@[j])));
    }
    r
}

/// A trace walks every activation that holds wasm and nothing past it:
/// nothing when the current activation holds none; otherwise the current
/// activation's frames, then one parent sequence per resume point of the
/// active chain, then the older activations in order, each of which holds
/// wasm, stopping only at the end of the list or at the first older
/// activation that holds none.
pub proof fn law_trace_walks_every_live_activation(
    current: Activation,
    older: Seq<Activation>,
    resumes: Seq<(usize, usize)>,
    parent_entry_fps: Seq<usize>,
)
    requires
        resumes.len() == parent_entry_fps.len(),
    ensures
        current.exit_pc == 0 ==> trace_plan_spec(current, older, resumes, parent_entry_fps).len() == 0,
        current.exit_pc != 0 ==> ({
            let plan = trace_plan_spec(current, older, resumes, parent_entry_fps);
            let r = resumes.len() as int;
            let t = plan.len() - 1 - r;
            &&& plan.len() >= 1 + r
            &&& plan[0] == activation_segment(current)
            &&& forall|j: int|
                #![trigger resumes[j]]
                0 <= j < r ==> plan[1 + j] == parent_segment(resumes[j], parent_entry_fps[j])
            &&& t <= older.len()
            &&& forall|j: int|
                #![trigger older[j]]
                0 <= j < t ==> older[j].exit_pc != 0 && plan[1 + r + j] == activation_segment(older[j])
            &&& t < older.len() ==> older[t].exit_pc == 0
        }),
{
    lemma_live_count_prefix(older);
    if current.exit_pc != 0 {
        let plan = trace_plan_spec(current, older, resumes, parent_entry_fps);
        let r = resumes.len() as int;
        assert forall|j: int| #![trigger resumes[j]] 0 <= j < r implies plan[1 + j] == parent_segment(
            resumes[j],
            parent_entry_fps[j],
        ) by {}
        assert forall|j: int|
            #![trigger older[j]]
            0 <= j < live_count(older) implies older[j].exit_pc != 0 && plan[1 + r + j]
            == activation_segment(older[j]) by {}
    }
}

} // verus!
