//! Data shared between the runtime and generated code for WasmFX
//! continuations: stack limits, the life-cycle state of a continuation,
//! tagged pointers and the encoding of control effects.

use vstd::prelude::*;

verus! {

/// Default size for continuation stacks: 2MB, 512 pages of 4k.
pub const DEFAULT_FIBER_SIZE: usize = 2097152;

/// Default size of the red zone at the bottom of a fiber stack: whenever
/// execution of a wasm function starts on a fiber stack, the stack pointer
/// must be at least this many bytes away from the bottom of the stack.
pub const DEFAULT_RED_ZONE_SIZE: usize = 32768;

/// Capacity of the handler list initially created for the main stack and
/// every continuation.
pub const INITIAL_HANDLER_LIST_CAPACITY: usize = 4;

/// Whether debug printing of continuation events is enabled.
pub const ENABLE_DEBUG_PRINTING: bool = false;

/// Discriminant of the `Absent` stack chain variant.
pub const STACK_CHAIN_ABSENT_DISCRIMINANT: usize = 0;

/// Discriminant of the `MainStack` stack chain variant.
pub const STACK_CHAIN_MAIN_STACK_DISCRIMINANT: usize = 1;

/// Discriminant of the `Continuation` stack chain variant.
pub const STACK_CHAIN_CONTINUATION_DISCRIMINANT: usize = 2;

/// Discriminant of [`ControlEffect::Return`].
pub const CONTROL_EFFECT_RETURN_DISCRIMINANT: u32 = 0;

/// Discriminant of [`ControlEffect::Resume`].
pub const CONTROL_EFFECT_RESUME_DISCRIMINANT: u32 = 1;

/// Discriminant of [`ControlEffect::Suspend`].
pub const CONTROL_EFFECT_SUSPEND_DISCRIMINANT: u32 = 2;

/// Discriminant of [`ControlEffect::Switch`].
pub const CONTROL_EFFECT_SWITCH_DISCRIMINANT: u32 = 3;

/// Runtime configuration options for WasmFX.
#[derive(Debug, Clone, Copy, PartialEq, Eq, Structural)]
pub struct WasmFXConfig {
    /// Size of each continuation stack in bytes.
    pub stack_size: usize,
    /// Space that must be left on stack when starting execution of a
    /// function while running on a continuation stack. Must be smaller than
    /// `stack_size`.
    pub red_zone_size: usize,
}

impl WasmFXConfig {
    /// A configuration is usable when its red zone fits into its stacks.
    pub open spec fn valid(&self) -> bool {
        self.red_zone_size < self.stack_size
    }

    /// The default stack and red zone sizes.
    pub fn new() -> (c: WasmFXConfig)
        ensures
            c.stack_size == DEFAULT_FIBER_SIZE,
            c.red_zone_size == DEFAULT_RED_ZONE_SIZE,
            c.valid(),
    {
        WasmFXConfig { stack_size: DEFAULT_FIBER_SIZE, red_zone_size: DEFAULT_RED_ZONE_SIZE }
    }
}

/// A saved subset of the runtime limits: the stack limit and where wasm was
/// last entered.
#[derive(Debug, Clone, Copy, PartialEq, Eq, Structural)]
pub struct StackLimits {
    pub stack_limit: usize,
    pub last_wasm_entry_fp: usize,
}

impl Default for StackLimits {
    fn default() -> (r: StackLimits)
        ensures
            r.stack_limit == 0,
            r.last_wasm_entry_fp == 0,
    {
        StackLimits { stack_limit: 0, last_wasm_entry_fp: 0 }
    }
}

impl StackLimits {
    /// Limits with the given stack limit and all other fields zero.
    pub fn with_stack_limit(stack_limit: usize) -> (r: StackLimits)
        ensures
            r.stack_limit == stack_limit,
            r.last_wasm_entry_fp == 0,
    {
        StackLimits { stack_limit, ..StackLimits::default() }
    }
}

/// Encodes the life cycle of a continuation.
#[derive(Debug, Clone, Copy, PartialEq, Eq, Structural)]
pub enum State {
    /// Created, but neither `resume` nor `switch` has been called on it yet.
    /// In this stage arguments may be added with `cont.bind`.
    Fresh,
    /// Currently executing code.
    Running,
    /// Suspended because it executed a resume instruction that has not
    /// finished yet: it is the parent of another continuation.
    Parent,
    /// Suspended by a `suspend` or `switch` instruction.
    Suspended,
    /// The function passed to `cont.new` has returned normally.
    Returned,
}

/// The number that represents `s` in memory shared with generated code.
pub open spec fn state_discriminant(s: State) -> i32 {
    match s {
        State::Fresh => 0,
        State::Running => 1,
        State::Parent => 2,
        State::Suspended => 3,
        State::Returned => 4,
    }
}

impl State {
    /// The number that represents this state in memory.
    pub fn discriminant(&self) -> (r: i32)
        ensures
            r == state_discriminant(*self),
    {
        match self {
            State::Fresh => 0,
            State::Running => 1,
            State::Parent => 2,
            State::Suspended => 3,
            State::Returned => 4,
        }
    }
}

impl From<State> for i32 {
    fn from(st: State) -> (r: i32) {
        st.discriminant()
    }
}

impl vstd::std_specs::convert::FromSpecImpl<State> for i32 {
    open spec fn obeys_from_spec() -> bool {
        true
    }

    open spec fn from_spec(st: State) -> i32 {
        state_discriminant(st)
    }
}

/// A growable buffer whose capacity is managed by hand: it is only grown
/// while empty, and its length counts the occupied slots.
#[derive(Debug)]
pub struct Vector<T> {
    length: u32,
    capacity: u32,
    data: Vec<T>,
}

impl<T> Vector<T> {
    /// The occupied slots.
    pub closed spec fn contents(&self) -> Seq<T> {
        self.data@
    }

    /// Number of slots in the buffer.
    pub closed spec fn capacity_spec(&self) -> u32 {
        self.capacity
    }

    /// Number of occupied slots.
    pub closed spec fn length_spec(&self) -> u32 {
        self.length
    }

    /// Length and contents agree, and the contents fit the capacity.
    pub closed spec fn wf(&self) -> bool {
        &&& self.data@.len() == self.length
        &&& self.length <= self.capacity
    }

    /// An empty buffer with room for `capacity` slots.
    pub fn new(capacity: u32) -> (v: Self)
        ensures
            v.wf(),
            v.length_spec() == 0,
            v.capacity_spec() == capacity,
            v.contents() == Seq::<T>::empty(),
    {
        Vector { length: 0, capacity, data: Vec::new() }
    }

    /// Number of occupied slots.
    pub fn get_length(&self) -> (r: u32)
        ensures
            r == self.length_spec(),
    {
        self.length
    }

    /// Number of slots in the buffer.
    pub fn get_capacity(&self) -> (r: u32)
        ensures
            r == self.capacity_spec(),
    {
        self.capacity
    }

    /// Ensures that the buffer can hold at least `required_capacity` slots.
    /// Does not preserve existing elements and can therefore only be called
    /// on an empty buffer.
    pub fn ensure_capacity(&mut self, required_capacity: u32)
        requires
            old(self).wf(),
            old(self).length_spec() == 0,
        ensures
            final(self).wf(),
            final(self).length_spec() == 0,
            final(self).contents() == Seq::<T>::empty(),
            final(self).capacity_spec() == if old(self).capacity_spec() < required_capacity {
                required_capacity
            } else {
                old(self).capacity_spec()
            },
    {
        if self.capacity < required_capacity {
            self.deallocate();
            *self = Self::new(required_capacity);
        }
    }

    /// Releases the buffer: afterwards it has neither slots nor capacity.
    pub fn deallocate(&mut self)
        ensures
            final(self).wf(),
            final(self).length_spec() == 0,
            final(self).capacity_spec() == 0,
            final(self).contents() == Seq::<T>::empty(),
    {
        self.data = Vec::new();
        self.capacity = 0;
        self.length = 0;
    }

    /// In a well-formed buffer the contents are the occupied slots, which
    /// fit the capacity.
    pub proof fn lemma_contents_len(&self)
        requires
            self.wf(),
        ensures
            self.contents().len() == self.length_spec(),
            self.length_spec() <= self.capacity_spec(),
    {
    }

    /// The occupied slot at `i`.
    pub fn get(&self, i: usize) -> (r: &T)
        requires
            self.wf(),
            i < self.length_spec(),
        ensures
            *r == self.contents()[i as int],
    {
        &self.data[i]
    }

    /// Marks all slots as free, keeping the capacity.
    pub fn clear(&mut self)
        requires
            old(self).wf(),
        ensures
            final(self).wf(),
            final(self).length_spec() == 0,
            final(self).capacity_spec() == old(self).capacity_spec(),
            final(self).contents() == Seq::<T>::empty(),
    {
        self.data.clear();
        self.length = 0;
    }

    /// Occupies the next free slot with `value`.
    pub fn push(&mut self, value: T)
        requires
            old(self).wf(),
            old(self).length_spec() < old(self).capacity_spec(),
        ensures
            final(self).wf(),
            final(self).length_spec() == old(self).length_spec() + 1,
            final(self).capacity_spec() == old(self).capacity_spec(),
            final(self).contents() == old(self).contents().push(value),
    {
        self.data.push(value);
        self.length = self.length + 1;
    }
}

/// Payloads passed between continuations, one 128-bit raw value per slot.
pub type Payloads = Vector<u128>;

/// Handlers installed by a resume, each the address of the handled tag.
pub type HandlerList = Vector<usize>;

/// Information kept both for the main stack and each continuation.
#[derive(Debug)]
pub struct CommonStackInformation {
    pub limits: StackLimits,
    /// For the main stack only `Running` or `Parent`.
    pub state: State,
    /// The handlers this stack installed when resuming a continuation; only
    /// in use when `state` is `Parent`, otherwise its length is 0. Suspend
    /// handlers come first, followed by switch handlers.
    pub handlers: HandlerList,
    /// Index of the first switch handler in `handlers`; only used when
    /// `state` is `Parent`.
    pub first_switch_handler_index: u32,
}

impl CommonStackInformation {
    /// Information for a stack that is running: zero limits, an empty
    /// handler list with the initial capacity.
    pub fn running_default() -> (r: Self)
        ensures
            r.limits == (StackLimits { stack_limit: 0, last_wasm_entry_fp: 0 }),
            r.state == State::Running,
            r.handlers.wf(),
            r.handlers.length_spec() == 0,
            r.handlers.capacity_spec() == INITIAL_HANDLER_LIST_CAPACITY,
            r.first_switch_handler_index == 0,
    {
        CommonStackInformation {
            limits: StackLimits::default(),
            state: State::Running,
            handlers: HandlerList::new(4),
            first_switch_handler_index: 0,
        }
    }

    /// Whether the stack is in state `s`.
    pub fn has_state(&self, s: State) -> (r: bool)
        ensures
            r == (self.state == s),
    {
        self.state == s
    }

    /// Whether the stack is in one of the states `states`.
    pub fn has_state_any_of(&self, states: &[State]) -> (r: bool)
        ensures
            r == states@.contains(self.state),
    {
        let mut i: usize = 0;
        while i < states.len()
            invariant
                i <= states@.len(),
                forall|j: int| 0 <= j < i ==> states@[j] != self.state,
            decreases states@.len() - i,
        {
            if states[i] == self.state {
                return true;
            }
            i = i + 1;
        }
        false
    }

    /// Moves the stack to state `s`.
    pub fn set_state(&mut self, s: State)
        ensures
            final(self).state == s,
            final(self).limits == old(self).limits,
            final(self).first_switch_handler_index == old(self).first_switch_handler_index,
    {
        self.state = s;
    }
}

/// Number of low bits of a [`TaggedPointer`] that hold the tag.
pub const LOW_TAG_BITS: usize = 2;

/// Mask selecting the tag bits of a [`TaggedPointer`].
pub const LOW_TAG_MASK: usize = 3;

/// A pointer-sized value whose low two bits may carry a tag.
#[derive(Debug, Clone, Copy, PartialEq, Eq, Structural)]
pub struct TaggedPointer(pub usize);

impl TaggedPointer {
    /// The value `val`, read as carrying whatever tag its low bits hold.
    pub fn untagged(val: usize) -> (r: Self)
        ensures
            r.0 == val,
    {
        TaggedPointer(val)
    }

    /// Sets the tag bits selected by `tag`; `tag` must fit in the tag bits.
    pub fn low_tag(self, tag: usize) -> (r: Self)
        requires
            tag <= LOW_TAG_MASK,
        ensures
            r.0 == self.0 | tag,
    {
        TaggedPointer(self.0 | tag)
    }

    /// The tag carried in the low bits.
    pub fn get_low_tag(self) -> (r: usize)
        ensures
            r == self.0 & LOW_TAG_MASK,
            r <= LOW_TAG_MASK,
    {
        let v = self.0;
        let r = v & LOW_TAG_MASK;
        assert(v & 3 <= 3) by (bit_vector);
        r
    }

    /// The value with its tag bits cleared.
    pub fn low_untag(self) -> (r: Self)
        ensures
            r.0 == self.0 & !LOW_TAG_MASK,
    {
        TaggedPointer(self.0 & !LOW_TAG_MASK)
    }
}

impl From<TaggedPointer> for usize {
    fn from(val: TaggedPointer) -> (r: usize) {
        val.0
    }
}

impl vstd::std_specs::convert::FromSpecImpl<TaggedPointer> for usize {
    open spec fn obeys_from_spec() -> bool {
        true
    }

    open spec fn from_spec(val: TaggedPointer) -> usize {
        val.0
    }
}

impl From<usize> for TaggedPointer {
    fn from(val: usize) -> (r: TaggedPointer) {
        TaggedPointer::untagged(val)
    }
}

impl vstd::std_specs::convert::FromSpecImpl<usize> for TaggedPointer {
    open spec fn obeys_from_spec() -> bool {
        true
    }

    open spec fn from_spec(val: usize) -> TaggedPointer {
        TaggedPointer(val)
    }
}

/// Tagging an aligned pointer and reading the tag back yields the tag, and
/// clearing the tag yields the pointer again.
pub proof fn law_tag_roundtrip(p: usize, tag: usize)
    requires
        p & 3 == 0,
        tag <= 3,
    ensures
        (p | tag) & 3 == tag,
        (p | tag) & !3usize == p,
{
    assert((p | tag) & 3 == tag) by (bit_vector)
        requires
            p & 3 == 0,
            tag <= 3,
    ;
    assert((p | tag) & !3usize == p) by (bit_vector)
        requires
            p & 3 == 0,
            tag <= 3,
    ;
}

/// Clearing the tag and then setting it again restores the value.
pub proof fn law_untag_retag(v: usize)
    ensures
        (v & !3usize) | (v & 3) == v,
        (v & !3usize) & 3 == 0,
{
    assert((v & !3usize) | (v & 3) == v) by (bit_vector);
    assert((v & !3usize) & 3 == 0) by (bit_vector);
}

/// Universal control effect: the reason why control came back from a stack
/// switch, with the handler to suspend to for `Suspend`.
#[derive(Debug, Clone, Copy, PartialEq, Eq, Structural)]
pub enum ControlEffect {
    Return,
    Resume,
    Suspend { handler_index: u32 },
    Switch,
}

/// The discriminant of an effect.
pub open spec fn effect_discriminant(e: ControlEffect) -> u32 {
    match e {
        ControlEffect::Return => CONTROL_EFFECT_RETURN_DISCRIMINANT,
        ControlEffect::Resume => CONTROL_EFFECT_RESUME_DISCRIMINANT,
        ControlEffect::Suspend { .. } => CONTROL_EFFECT_SUSPEND_DISCRIMINANT,
        ControlEffect::Switch => CONTROL_EFFECT_SWITCH_DISCRIMINANT,
    }
}

/// The 64-bit representation of an effect: the discriminant in the low 32
/// bits, the handler index (for `Suspend`, else 0) in the high 32 bits.
pub open spec fn effect_to_u64(e: ControlEffect) -> u64 {
    match e {
        ControlEffect::Suspend { handler_index } => (handler_index * 0x1_0000_0000 + 2) as u64,
        _ => effect_discriminant(e) as u64,
    }
}

/// Whether `val` is the representation of some effect: a known
/// discriminant in the low 32 bits.
pub open spec fn is_effect_encoding(val: u64) -> bool {
    val % 0x1_0000_0000 <= 3
}

/// The effect that a 64-bit representation stands for.
pub open spec fn effect_from_u64(val: u64) -> ControlEffect {
    let d = val % 0x1_0000_0000;
    if d == 0 {
        ControlEffect::Return
    } else if d == 1 {
        ControlEffect::Resume
    } else if d == 2 {
        ControlEffect::Suspend { handler_index: (val / 0x1_0000_0000) as u32 }
    } else {
        ControlEffect::Switch
    }
}

impl ControlEffect {
    /// The 64-bit representation of this effect.
    pub fn to_u64(self) -> (r: u64)
        ensures
            r == effect_to_u64(self),
    {
        match self {
            ControlEffect::Return => CONTROL_EFFECT_RETURN_DISCRIMINANT as u64,
            ControlEffect::Resume => CONTROL_EFFECT_RESUME_DISCRIMINANT as u64,
            ControlEffect::Suspend { handler_index } => {
                (handler_index as u64) * 0x1_0000_0000 + CONTROL_EFFECT_SUSPEND_DISCRIMINANT as u64
            },
            ControlEffect::Switch => CONTROL_EFFECT_SWITCH_DISCRIMINANT as u64,
        }
    }

    /// The effect that `val` represents; `val` must hold a known
    /// discriminant in its low 32 bits.
    pub fn from_u64(val: u64) -> (r: ControlEffect)
        requires
            is_effect_encoding(val),
        ensures
            r == effect_from_u64(val),
    {
        let d = val % 0x1_0000_0000;
        if d == CONTROL_EFFECT_RETURN_DISCRIMINANT as u64 {
            ControlEffect::Return
        } else if d == CONTROL_EFFECT_RESUME_DISCRIMINANT as u64 {
            ControlEffect::Resume
        } else if d == CONTROL_EFFECT_SUSPEND_DISCRIMINANT as u64 {
            ControlEffect::Suspend { handler_index: (val / 0x1_0000_0000) as u32 }
        } else {
            ControlEffect::Switch
        }
    }

    /// Whether this is a `Suspend` effect.
    pub fn is_suspend(self) -> (r: bool)
        ensures
            r == (self is Suspend),
    {
        match self {
            ControlEffect::Suspend { .. } => true,
            _ => false,
        }
    }
}

/// Encoding an effect and decoding the result gives the effect back.
pub proof fn law_effect_roundtrip(e: ControlEffect)
    ensures
        is_effect_encoding(effect_to_u64(e)),
        effect_from_u64(effect_to_u64(e)) == e,
{
    if let ControlEffect::Suspend { handler_index } = e {
        let v = (handler_index as u64) * 0x1_0000_0000 + 2;
        assert(v % 0x1_0000_0000 == 2);
        assert(v / 0x1_0000_0000 == handler_index);
    }
}

/// Decoding a representation and encoding the effect gives the
/// representation back, provided that no handler index is stored in the
/// high bits of an effect other than `Suspend`.
pub proof fn law_effect_encoding_canonical(val: u64)
    requires
        is_effect_encoding(val),
        val % 0x1_0000_0000 != 2 ==> val < 0x1_0000_0000,
    ensures
        effect_to_u64(effect_from_u64(val)) == val,
{
}

} // verus!
