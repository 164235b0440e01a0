//! Continuation objects and the runtime's bookkeeping for them: the
//! linearity check on continuation objects, the chain of stacks from the
//! running continuation to the main stack, and the encodings exchanged with
//! generated code.

use vstd::prelude::*;
use crate::continuations::{Payloads, StackLimits, Vector};

verus! {

/// Errors raised by continuation operations.
#[derive(Debug, Clone, Copy, PartialEq, Eq, Structural)]
pub enum ContinuationError {
    /// The continuation object was already consumed by an earlier resume,
    /// bind or switch.
    AlreadyConsumed,
    /// Suspending while no continuation is running.
    NotInContinuation,
    /// The stack chain has not been initialised.
    ChainNotInitialised,
    /// No stack on the active chain handles the tag.
    UnhandledTag,
    /// The continuation is neither fresh nor suspended, so it cannot be
    /// resumed or switched to.
    InvalidState,
}

/// A handle to a continuation: the address of the continuation record and
/// the revision of the record that the handle is good for.
#[derive(Debug, Clone, Copy, PartialEq, Eq, Structural)]
pub struct VMContObj {
    pub revision: u64,
    pub contref: usize,
}

impl VMContObj {
    /// The handle to `contref` at `revision`.
    pub fn new(contref: usize, revision: u64) -> (r: VMContObj)
        ensures
            r.contref == contref,
            r.revision == revision,
    {
        VMContObj { revision, contref }
    }
}

/// The 128-bit value that carries a handle in a payload slot: the revision
/// in the low 64 bits, the record's address in the high 64 bits.
pub open spec fn contobj_bits(obj: VMContObj) -> u128 {
    (obj.revision as int + obj.contref as int * 0x1_0000_0000_0000_0000) as u128
}

impl VMContObj {
    /// The 128-bit value that carries this handle.
    pub fn to_bits(&self) -> (r: u128)
        ensures
            r == contobj_bits(*self),
    {
        (self.contref as u128) * 0x1_0000_0000_0000_0000u128 + (self.revision as u128)
    }

    /// The handle carried by a 128-bit value, if its address fits a
    /// `usize`.
    pub fn from_bits(bits: u128) -> (r: Option<VMContObj>)
        ensures
            bits / 0x1_0000_0000_0000_0000 <= usize::MAX ==> r == Some(
                VMContObj {
                    revision: (bits % 0x1_0000_0000_0000_0000) as u64,
                    contref: (bits / 0x1_0000_0000_0000_0000) as usize,
                },
            ),
            bits / 0x1_0000_0000_0000_0000 > usize::MAX ==> r is None,
    {
        let hi: u128 = bits / 0x1_0000_0000_0000_0000u128;
        let lo: u128 = bits % 0x1_0000_0000_0000_0000u128;
        if hi > usize::MAX as u128 {
            None
        } else {
            Some(VMContObj { revision: lo as u64, contref: hi as usize })
        }
    }
}

/// Unpacking a packed handle gives the handle back.
pub proof fn law_contobj_bits_roundtrip(obj: VMContObj)
    ensures
        contobj_bits(obj) / 0x1_0000_0000_0000_0000 == obj.contref,
        contobj_bits(obj) % 0x1_0000_0000_0000_0000 == obj.revision,
{
    let b = obj.revision as int + obj.contref as int * 0x1_0000_0000_0000_0000;
    assert(0 <= b < 0x1_0000_0000_0000_0000_0000_0000_0000_0000) by (nonlinear_arith)
        requires
            b == obj.revision as int + obj.contref as int * 0x1_0000_0000_0000_0000,
            0 <= obj.revision < 0x1_0000_0000_0000_0000,
            0 <= obj.contref < 0x1_0000_0000_0000_0000,
    ;
    vstd::arithmetic::div_mod::lemma_fundamental_div_mod_converse(
        b,
        0x1_0000_0000_0000_0000,
        obj.contref as int,
        obj.revision as int,
    );
}

/// The revision counter of a continuation record. A handle can be used only
/// while its revision equals the record's; using it moves the record on to
/// the next revision, so that each handle is used at most once.
#[derive(Debug, Clone, Copy, PartialEq, Eq, Structural)]
pub struct Revision {
    pub value: u64,
}

impl Revision {
    /// The revision of a new record.
    pub fn new() -> (r: Revision)
        ensures
            r.value == 0,
    {
        Revision { value: 0 }
    }

    /// A handle to the record at `contref` for its current revision.
    pub fn handle(&self, contref: usize) -> (r: VMContObj)
        ensures
            r.contref == contref,
            r.revision == self.value,
    {
        VMContObj::new(contref, self.value)
    }

    /// Consumes `obj`: fails unless its revision is the current one, and
    /// otherwise advances the revision and returns the new one.
    pub fn consume(&mut self, obj: VMContObj) -> (r: Result<u64, ContinuationError>)
        ensures
            obj.revision == old(self).value ==> r == Ok::<u64, ContinuationError>(old(self).value.wrapping_add(1))
                && final(self).value == old(self).value.wrapping_add(1),
            obj.revision != old(self).value ==> r == Err::<u64, ContinuationError>(ContinuationError::AlreadyConsumed)
                && final(self).value == old(self).value,
    {
        if obj.revision != self.value {
            return Err(ContinuationError::AlreadyConsumed);
        }
        self.value = self.value.wrapping_add(1);
        Ok(self.value)
    }
}

/// A handle can be used once: after it has been consumed, using it again
/// fails, while a handle for the new revision is accepted.
pub proof fn law_handle_used_once(current: u64, obj_revision: u64)
    requires
        obj_revision == current,
    ensures
        obj_revision != current.wrapping_add(1),
{
}

/// The value the runtime's resume entry point reports to generated code:
/// 0 when the continuation returned, otherwise the tag it suspended with,
/// marked by the top four bits.
pub open spec fn resume_result(suspended_with: Option<u32>) -> u32 {
    match suspended_with {
        None => 0,
        Some(tag) => tag | 0xf000_0000u32,
    }
}

/// The mask that marks a suspension in the result of resume.
pub const SUSPEND_SIGNAL_MASK: u32 = 0xf000_0000;

/// Encodes the outcome of resuming: `None` when the continuation returned,
/// `Some(tag)` when it suspended with `tag` (whose top four bits are clear).
pub fn encode_resume_result(suspended_with: Option<u32>) -> (r: u32)
    requires
        suspended_with matches Some(tag) ==> tag & 0xf000_0000u32 == 0,
    ensures
        r == resume_result(suspended_with),
{
    match suspended_with {
        None => 0,
        Some(tag) => tag | SUSPEND_SIGNAL_MASK,
    }
}

/// The outcome of resuming, read back from its encoding.
pub fn decode_resume_result(v: u32) -> (r: Option<u32>)
    ensures
        v == 0 ==> r == None::<u32>,
        v != 0 ==> r == Some(v & 0x0fff_ffffu32),
{
    if v == 0 {
        None
    } else {
        Some(v & 0x0fff_ffff)
    }
}

/// Decoding the encoded outcome of a resume gives the outcome back.
pub proof fn law_resume_result_roundtrip(suspended_with: Option<u32>)
    requires
        suspended_with matches Some(tag) ==> tag & 0xf000_0000u32 == 0,
    ensures
        resume_result(suspended_with) == 0 <==> suspended_with is None,
        suspended_with matches Some(tag) ==> resume_result(suspended_with) & 0x0fff_ffffu32 == tag,
{
    if let Some(tag) = suspended_with {
        assert((tag | 0xf000_0000u32) != 0 && (tag | 0xf000_0000u32) & 0x0fff_ffffu32 == tag) by (bit_vector)
            requires
                tag & 0xf000_0000u32 == 0,
        ;
    }
}

/// What a resume does once the resumed continuation hands control back,
/// in the baseline implementation.
#[derive(Debug, Clone, Copy, PartialEq, Eq, Structural)]
pub enum ResumeAction {
    /// The continuation returned: load its results.
    Return,
    /// It suspended with a tag of the resume table: run the handler of the
    /// table's entry at this index.
    Handle(usize),
    /// It suspended with a tag the table does not handle: suspend to this
    /// resume's own parent with the tag, then resume the continuation again.
    Forward(u32),
}

/// The first index of `tag` in `tags`.
pub open spec fn first_tag_index(tags: Seq<u32>, tag: u32) -> Option<int> {
    if exists|i: int| 0 <= i < tags.len() && tags[i] == tag {
        Some(choose|i: int| 0 <= i < tags.len() && tags[i] == tag && forall|j: int| 0 <= j < i ==> tags[j] != tag)
    } else {
        None
    }
}

/// The action for the encoded outcome `result` of a resume (see
/// [`resume_result`]) with the resume table's tags `table`: return, handle
/// the tag at its first entry in the table, or forward it.
pub open spec fn resume_action(result: u32, table: Seq<u32>) -> ResumeAction {
    if result == 0 {
        ResumeAction::Return
    } else {
        let tag = result & 0x0fff_ffffu32;
        match first_tag_index(table, tag) {
            Some(i) => ResumeAction::Handle(i as usize),
            None => ResumeAction::Forward(tag),
        }
    }
}

/// Decides what a resume does with the encoded outcome `result`, given the
/// tags of its resume table in order (see [`resume_action`]).
pub fn dispatch_resume_result(result: u32, table: &[u32]) -> (r: ResumeAction)
    ensures
        r == resume_action(result, table@),
{
    match decode_resume_result(result) {
        None => ResumeAction::Return,
        Some(tag) => {
            let mut i: usize = 0;
            while i < table.len()
                invariant
                    i <= table@.len(),
                    tag == result & 0x0fff_ffffu32,
                    result != 0,
                    forall|j: int| 0 <= j < i ==> table@[j] != tag,
                decreases table@.len() - i,
            {
                if table[i] == tag {
                    proof {
                        let k = choose|k: int|
                            0 <= k < table@.len() && table@[k] == tag && forall|j: int| 0 <= j < k ==> table@[j] != tag;
                        assert(0 <= i < table@.len() && table@[i as int] == tag);
                        if k < i {
                            assert(table@[k] != tag);
                        }
                        if i < k {
                            assert(table@[i as int] != tag);
                        }
                    }
                    return ResumeAction::Handle(i);
                }
                i = i + 1;
            }
            ResumeAction::Forward(tag)
        },
    }
}

/// The number of payload slots a new continuation needs: enough for its
/// parameters and for its results.
pub fn payload_capacity(param_count: u32, result_count: u32) -> (r: u32)
    ensures
        r >= param_count,
        r >= result_count,
        r == param_count || r == result_count,
{
    if param_count >= result_count {
        param_count
    } else {
        result_count
    }
}

/// The stack limit of a continuation whose stack has its top at `top`:
/// wasm may use all of the stack but the red zone at the bottom.
pub fn continuation_stack_limit(top: usize, stack_size: usize, red_zone_size: usize) -> (r: usize)
    requires
        red_zone_size <= stack_size,
        stack_size - red_zone_size <= top,
    ensures
        r == top - (stack_size - red_zone_size),
{
    top - (stack_size - red_zone_size)
}

/// Hands the tag return values buffer of `parent` over to `child`, whose
/// own buffer must be empty; the parent receives the child's empty buffer.
pub fn forward_tag_return_values(parent: &mut Payloads, child: &mut Payloads)
    requires
        old(child).length_spec() == 0,
    ensures
        final(child).contents() == old(parent).contents(),
        final(child).length_spec() == old(parent).length_spec(),
        final(child).capacity_spec() == old(parent).capacity_spec(),
        final(parent).contents() == old(child).contents(),
        final(parent).length_spec() == 0,
        final(parent).capacity_spec() == old(child).capacity_spec(),
{
    std::mem::swap(parent, child);
}

/// A link in a chain of stacks: the main stack (with the address of its
/// saved limits), a continuation (by its index among the continuation
/// records), or nothing.
#[derive(Debug, Clone, Copy, PartialEq, Eq, Structural)]
pub enum StackChain {
    /// In the context: not set yet. In a continuation: it has no parent.
    Absent,
    /// The main stack.
    MainStack(usize),
    /// A continuation's stack.
    Continuation(usize),
}

impl StackChain {
    /// Whether this is the main stack.
    pub fn is_main_stack(&self) -> (r: bool)
        ensures
            r == (*self is MainStack),
    {
        match self {
            StackChain::MainStack(_) => true,
            _ => false,
        }
    }

    /// Whether this link is absent.
    pub fn is_absent(&self) -> (r: bool)
        ensures
            r == (*self is Absent),
    {
        match self {
            StackChain::Absent => true,
            _ => false,
        }
    }
}

/// The continuation that a `suspend` from the runtime leaves: the one the
/// stack chain says is running. Suspending needs a running continuation:
/// on the main stack there is none, and an absent chain was never set up.
pub fn suspend_target(chain: StackChain) -> (r: Result<usize, ContinuationError>)
    ensures
        match chain {
            StackChain::Absent => r == Err::<usize, ContinuationError>(ContinuationError::ChainNotInitialised),
            StackChain::MainStack(_) => r == Err::<usize, ContinuationError>(ContinuationError::NotInContinuation),
            StackChain::Continuation(c) => r == Ok::<usize, ContinuationError>(c),
        },
{
    match chain {
        StackChain::Absent => Err(ContinuationError::ChainNotInitialised),
        StackChain::MainStack(_) => Err(ContinuationError::NotInContinuation),
        StackChain::Continuation(c) => Ok(c),
    }
}

/// What the runtime keeps of a continuation for walking chains: its limits
/// and its parent link.
#[derive(Debug, Clone, Copy, PartialEq, Eq, Structural)]
pub struct ChainRecord {
    pub limits: StackLimits,
    pub parent_chain: StackChain,
}

/// One stack in a chain: the continuation's index, or `None` for the main
/// stack, with where its limits live (a continuation index or the main
/// stack's address).
#[derive(Debug, Clone, Copy, PartialEq, Eq, Structural)]
pub struct ChainStack {
    pub continuation: Option<usize>,
    pub main_stack_limits: usize,
}

/// Following `chain` through `records` reaches its end (`Absent`, or the
/// main stack) within `n` continuations.
pub open spec fn chain_ends_within(records: Seq<ChainRecord>, chain: StackChain, n: nat) -> bool
    decreases n,
{
    match chain {
        StackChain::Absent => true,
        StackChain::MainStack(_) => true,
        StackChain::Continuation(i) => n > 0 && i < records.len() && chain_ends_within(
            records,
            records[i as int].parent_chain,
            (n - 1) as nat,
        ),
    }
}

/// The stacks met when following `chain` through `records`, at most `n`
/// continuations deep.
pub open spec fn chain_stacks(records: Seq<ChainRecord>, chain: StackChain, n: nat) -> Seq<ChainStack>
    decreases n,
{
    match chain {
        StackChain::Absent => Seq::empty(),
        StackChain::MainStack(ms) => seq![ChainStack { continuation: None, main_stack_limits: ms }],
        StackChain::Continuation(i) => if n > 0 && i < records.len() {
            seq![ChainStack { continuation: Some(i), main_stack_limits: 0 }] + chain_stacks(
                records,
                records[i as int].parent_chain,
                (n - 1) as nat,
            )
        } else {
            Seq::empty()
        },
    }
}

/// The stacks of `chain`, from the one it starts at to the last parent:
/// each continuation met, and the main stack if the chain ends there. The
/// chain must end within `records.len()` continuations (it has no cycle).
pub fn chain_iter(records: &[ChainRecord], chain: StackChain) -> (r: Vec<ChainStack>)
    requires
        chain_ends_within(records@, chain, records@.len() as nat),
    ensures
        r@ == chain_stacks(records@, chain, records@.len() as nat),
{
    let mut out: Vec<ChainStack> = Vec::new();
    let mut cur = chain;
    let mut fuel: usize = records.len();
    let ghost n0 = records@.len() as nat;
    loop
        invariant
            fuel <= records@.len(),
            n0 == records@.len() as nat,
            chain_ends_within(records@, cur, fuel as nat),
            out@ + chain_stacks(records@, cur, fuel as nat) == chain_stacks(records@, chain, n0),
        decreases fuel,
    {
        match cur {
            StackChain::Absent => {
                assert(out@ + Seq::<ChainStack>::empty() =~= out@);
                return out;
            },
            StackChain::MainStack(ms) => {
                out.push(ChainStack { continuation: None, main_stack_limits: ms });
                proof {
                    assert(out@ =~= chain_stacks(records@, chain, n0));
                }
                return out;
            },
            StackChain::Continuation(i) => {
                let ghost prev = out@;
                out.push(ChainStack { continuation: Some(i), main_stack_limits: 0 });
                let next = records[i].parent_chain;
                proof {
                    assert(prev + chain_stacks(records@, cur, fuel as nat) =~= out@ + chain_stacks(
                        records@,
                        next,
                        (fuel - 1) as nat,
                    ));
                }
                cur = next;
                fuel = fuel - 1;
            },
        }
    }
}


/// Reserves `nargs` zeroed slots at the end of an argument buffer and
/// returns the position of the first of them.
pub fn reserve_argument_slots(args: &mut Vec<u128>, nargs: usize) -> (r: usize)
    requires
        old(args)@.len() + nargs <= usize::MAX,
    ensures
        final(args)@ == old(args)@ + Seq::new(nargs as nat, |_i: int| 0u128),
        r == if nargs > 0 { old(args)@.len() } else { 0 },
{
    let ghost a0 = args@;
    let mut i: usize = 0;
    while i < nargs
        invariant
            i <= nargs,
            a0.len() + nargs <= usize::MAX,
            args@ == a0 + Seq::new(i as nat, |_i: int| 0u128),
        decreases nargs - i,
    {
        args.push(0);
        i = i + 1;
        proof {
            assert(args@ =~= a0 + Seq::new(i as nat, |_i: int| 0u128));
        }
    }
    if nargs > 0 {
        args.len() - nargs
    } else {
        0
    }
}

/// Moves the arguments bound to `src` onto `dst`, whose arguments must be
/// empty.
pub fn move_continuation_arguments(src: &mut Vec<u128>, dst: &mut Vec<u128>)
    requires
        old(dst)@.len() == 0,
    ensures
        final(dst)@ == old(src)@,
        final(src)@ == Seq::<u128>::empty(),
{
    dst.append(src);
}

/// On the first resume of a continuation, its bound arguments become the
/// initial contents of its value buffer.
pub fn prepare_first_resume(args: &mut Vec<u128>, values: &mut Vec<u128>)
    requires
        old(values)@.len() == 0,
    ensures
        final(values)@ == old(args)@,
        final(args)@ == Seq::<u128>::empty(),
{
    values.append(args);
    args.clear();
}

} // verus!
