//! The stack switching protocol: what `cont.new`, `cont.bind`, `resume`,
//! `suspend`, `switch` and a continuation's return do to the runtime's
//! continuation records, the main stack and the active stack chain.
//!
//! Continuations are kept in a store and named by their index. The chain
//! of active stacks runs from the running continuation through its parents
//! to the main stack; a suspended continuation heads a chain of its own
//! that ends in a stack without a parent (its last ancestor). The store's
//! invariant keeps these chains apart and free of cycles, and keeps one
//! stack running.

use vstd::prelude::*;
use crate::continuation::{contobj_bits, ContinuationError, StackChain, VMContObj};
use crate::continuations::{CommonStackInformation, HandlerList, StackLimits, State};
use crate::stacks::{
    all_handlers_ok, chain_from, cont_view, conts_view, first_match, handler_search, handlers_ok,
    law_found_handler_matches, law_handler_search_walks_whole_chain, parent_handles, search_handler, search_range,
    stack_at, stack_view, ContRecord, ContView, StackView,
};

verus! {

/// The owner label of the stacks on the active chain.
pub open spec fn active_owner() -> int {
    -1
}

/// The owner label of continuations that have returned.
pub open spec fn dead_owner() -> int {
    -2
}

/// The abstract state of a continuation store.
pub struct StoreView {
    /// The continuation records, by index.
    pub conts: Seq<ContView>,
    /// The main stack.
    pub main: StackView,
    /// The address that names the main stack in chains.
    pub main_id: usize,
    /// The running stack: the head of the active chain.
    pub active: StackChain,
    /// The limits of the running stack as the runtime currently has them.
    pub runtime_limits: StackLimits,
}

/// The chain headed by `h` ends in a continuation without a parent, which
/// `h` records as its last ancestor.
pub open spec fn head_ok(conts: Seq<ContView>, owner: Seq<int>, depth: Seq<int>, h: int) -> bool {
    match conts[h].last_ancestor {
        Some(la) => la < conts.len() && owner[la as int] == h && depth[la as int] == 0
            && conts[la as int].parent_chain == StackChain::Absent,
        None => false,
    }
}

/// Record `i` fits its place. Each record has an owner: the active chain,
/// the chain headed by a suspended or fresh continuation, or nobody (it
/// returned); and a depth: its distance from the end of its chain. A
/// parent is one step closer to the end of the same chain, so chains
/// have no cycles.
pub open spec fn record_ok(v: StoreView, owner: Seq<int>, depth: Seq<int>, i: int) -> bool {
    let r = v.conts[i];
    let o = owner[i];
    if o == active_owner() {
        &&& depth[i] >= 0
        &&& r.common.state == (if v.active == StackChain::Continuation(i as usize) {
            State::Running
        } else {
            State::Parent
        })
        &&& match r.parent_chain {
            StackChain::MainStack(m) => m == v.main_id && depth[i] == 0,
            StackChain::Continuation(p) => p < v.conts.len() && owner[p as int] == active_owner() && depth[p as int]
                == depth[i] - 1,
            StackChain::Absent => false,
        }
    } else if o == dead_owner() {
        r.common.state == State::Returned
    } else {
        &&& 0 <= o < v.conts.len()
        &&& owner[o] == o
        &&& 0 <= depth[i] <= depth[o]
        &&& i == o ==> (r.common.state == State::Fresh || r.common.state == State::Suspended) && head_ok(
            v.conts,
            owner,
            depth,
            o,
        )
        &&& i != o ==> r.common.state == State::Parent
        &&& match r.parent_chain {
            StackChain::Absent => depth[i] == 0,
            StackChain::Continuation(p) => p < v.conts.len() && owner[p as int] == o && depth[p as int] == depth[i]
                - 1,
            StackChain::MainStack(_) => false,
        }
    }
}

/// The store's invariant, given owner and depth labels for the records:
/// every record fits its place, no two records of a chain have the same
/// depth, the active chain is headed by the running stack (the deepest of
/// the chain) and ends at the main stack, and every handler list is
/// consistent.
pub open spec fn store_inv(v: StoreView, owner: Seq<int>, depth: Seq<int>) -> bool {
    &&& v.conts.len() < usize::MAX
    &&& owner.len() == v.conts.len()
    &&& depth.len() == v.conts.len()
    &&& all_handlers_ok(v.conts, v.main)
    &&& forall|i: int| 0 <= i < v.conts.len() ==> #[trigger] record_ok(v, owner, depth, i)
    &&& forall|i: int, j: int|
        0 <= i < v.conts.len() && 0 <= j < v.conts.len() && i != j && #[trigger] owner[i] == #[trigger] owner[j]
            && owner[i] != dead_owner() ==> depth[i] != depth[j]
    &&& match v.active {
        StackChain::MainStack(m) => m == v.main_id && v.main.state == State::Running && forall|i: int|
            0 <= i < v.conts.len() ==> #[trigger] owner[i] != active_owner(),
        StackChain::Continuation(a) => a < v.conts.len() && owner[a as int] == active_owner() && v.main.state
            == State::Parent && forall|i: int|
            0 <= i < v.conts.len() && #[trigger] owner[i] == active_owner() ==> depth[i] <= depth[a as int],
        StackChain::Absent => false,
    }
}

/// The continuation records of a store, its main stack and the active
/// chain, as the runtime and generated code share them.
pub struct ContinuationStore {
    records: Vec<ContRecord>,
    main: CommonStackInformation,
    main_id: usize,
    active: StackChain,
    runtime_limits: StackLimits,
    owner: Ghost<Seq<int>>,
    depth: Ghost<Seq<int>>,
}

impl View for ContinuationStore {
    type V = StoreView;

    closed spec fn view(&self) -> StoreView {
        StoreView {
            conts: conts_view(self.records@),
            main: stack_view(self.main),
            main_id: self.main_id,
            active: self.active,
            runtime_limits: self.runtime_limits,
        }
    }
}

/// A fresh continuation record with the given stack limit, heading a chain
/// of its own (its index is `id`).
pub open spec fn fresh_cont(stack_limit: usize, id: usize) -> ContView {
    ContView {
        common: StackView {
            state: State::Fresh,
            limits: StackLimits { stack_limit, last_wasm_entry_fp: 0 },
            handlers: Seq::empty(),
            first_switch_handler_index: 0,
        },
        parent_chain: StackChain::Absent,
        last_ancestor: Some(id),
        revision: 0,
        args: Seq::empty(),
        values: Seq::empty(),
    }
}

/// A record after payloads `p` are passed to it: a fresh continuation
/// takes them as arguments, one that already ran as values.
pub open spec fn with_payloads(r: ContView, p: Seq<u128>) -> ContView {
    if r.common.state == State::Fresh {
        ContView { args: r.args + p, ..r }
    } else {
        ContView { values: r.values + p, ..r }
    }
}

/// The store after `cont.new` with the given stack limit.
pub open spec fn cont_new_spec(v: StoreView, stack_limit: usize) -> StoreView {
    StoreView { conts: v.conts.push(fresh_cont(stack_limit, v.conts.len() as usize)), ..v }
}

/// Whether `obj` is a handle to a record of `v` at its current revision.
pub open spec fn handle_valid(v: StoreView, obj: VMContObj) -> bool {
    obj.contref < v.conts.len() && v.conts[obj.contref as int].revision == obj.revision
}

/// The store after `cont.bind` of `args` through a valid handle.
pub open spec fn cont_bind_spec(v: StoreView, c: usize, args: Seq<u128>) -> StoreView {
    let r = v.conts[c as int];
    StoreView {
        conts: v.conts.update(c as int, with_payloads(ContView { revision: r.revision.wrapping_add(1), ..r }, args)),
        ..v
    }
}

/// The depth at which a chain spliced under `link` ends: one more than
/// the continuation `link` names, or 0 under the main stack.
pub open spec fn depth_under(depth: Seq<int>, link: StackChain) -> int {
    match link {
        StackChain::Continuation(a) => depth[a as int] + 1,
        _ => 0,
    }
}

/// The common information of the stack that `link` denotes (the main
/// stack unless it is a continuation).
pub open spec fn common_of(v: StoreView, link: StackChain) -> StackView {
    match link {
        StackChain::Continuation(p) => v.conts[p as int].common,
        _ => v.main,
    }
}

/// `v` with the common information of the stack that `link` denotes
/// replaced by `s`.
pub open spec fn set_common(v: StoreView, link: StackChain, s: StackView) -> StoreView {
    match link {
        StackChain::Continuation(p) => StoreView {
            conts: v.conts.update(p as int, ContView { common: s, ..v.conts[p as int] }),
            ..v
        },
        _ => StoreView { main: s, ..v },
    }
}

/// The last ancestor recorded by a continuation (0 if none).
pub open spec fn last_ancestor_of(r: ContView) -> usize {
    match r.last_ancestor {
        Some(la) => la,
        None => 0,
    }
}

/// The store after `resume` of continuation `c` with `args`, installing
/// `handlers` (the first `n_suspend` of them suspend handlers, the rest
/// switch handlers) in the running stack: `c` moves to its next revision,
/// takes the arguments and runs; the end of the chain it heads gets the
/// running stack as parent; the running stack becomes a parent, saves the
/// runtime limits and holds the handlers; the runtime takes `c`'s limits.
pub open spec fn resume_spec(v: StoreView, c: usize, args: Seq<u128>, handlers: Seq<usize>, n_suspend: u32) -> StoreView {
    let r = v.conts[c as int];
    let la = last_ancestor_of(r);
    let conts1 = v.conts.update(la as int, ContView { parent_chain: v.active, ..v.conts[la as int] });
    let rc = with_payloads(ContView { revision: conts1[c as int].revision.wrapping_add(1), ..conts1[c as int] }, args);
    let conts2 = conts1.update(
        c as int,
        ContView { common: StackView { state: State::Running, ..rc.common }, last_ancestor: None, ..rc },
    );
    let parent = StackView {
        state: State::Parent,
        limits: v.runtime_limits,
        handlers: handlers,
        first_switch_handler_index: n_suspend,
    };
    let v3 = set_common(StoreView { conts: conts2, ..v }, v.active, parent);
    StoreView { active: StackChain::Continuation(c), runtime_limits: r.common.limits, ..v3 }
}

/// Whether continuation `c` can be resumed or switched to: it is fresh or
/// suspended.
pub open spec fn resumable(v: StoreView, c: usize) -> bool {
    c < v.conts.len() && (v.conts[c as int].common.state == State::Fresh || v.conts[c as int].common.state
        == State::Suspended)
}

/// The owner labels after the chain headed by `h` joins the active chain.
pub open spec fn owner_joined(owner: Seq<int>, h: int) -> Seq<int> {
    Seq::new(owner.len(), |i: int| if owner[i] == h { active_owner() } else { owner[i] })
}

/// The depth labels after the chain headed by `h` is spliced `d` deeper.
pub open spec fn depth_joined(owner: Seq<int>, depth: Seq<int>, h: int, d: int) -> Seq<int> {
    Seq::new(depth.len(), |i: int| if owner[i] == h { depth[i] + d } else { depth[i] })
}

/// A fresh or suspended continuation heads its own chain, whose end it
/// records.
proof fn lemma_resumable_is_head(v: StoreView, owner: Seq<int>, depth: Seq<int>, c: usize)
    requires
        store_inv(v, owner, depth),
        resumable(v, c),
    ensures
        owner[c as int] == c,
        head_ok(v.conts, owner, depth, c as int),
        v.conts[c as int].last_ancestor == Some(last_ancestor_of(v.conts[c as int])),
{
    assert(record_ok(v, owner, depth, c as int));
}

/// `resume` keeps the invariant: the chain headed by the resumed
/// continuation joins the active chain above the running stack.
proof fn lemma_resume_inv(
    v: StoreView,
    owner: Seq<int>,
    depth: Seq<int>,
    c: usize,
    args: Seq<u128>,
    handlers: Seq<usize>,
    n_suspend: u32,
)
    requires
        store_inv(v, owner, depth),
        resumable(v, c),
        n_suspend <= handlers.len() <= u32::MAX,
    ensures
        store_inv(
            resume_spec(v, c, args, handlers, n_suspend),
            owner_joined(owner, c as int),
            depth_joined(owner, depth, c as int, depth_under(depth, v.active)),
        ),
{
    lemma_resumable_is_head(v, owner, depth, c);
    let n = v.conts.len() as int;
    let la = last_ancestor_of(v.conts[c as int]) as int;
    let du = depth_under(depth, v.active);
    let v1 = resume_spec(v, c, args, handlers, n_suspend);
    let o1 = owner_joined(owner, c as int);
    let d1 = depth_joined(owner, depth, c as int, du);
    assert(v1.conts.len() == n);
    if let StackChain::Continuation(a) = v.active {
        assert(record_ok(v, owner, depth, a as int));
        assert(a != c);
        assert(a as int != la);
    }
    assert forall|i: int| 0 <= i < n implies #[trigger] handlers_ok(v1.conts[i].common) by {
        assert(handlers_ok(v.conts[i].common));
        assert(record_ok(v, owner, depth, i));
    }
    assert(handlers_ok(v1.main)) by {
        assert(record_ok(v, owner, depth, c as int));
    }
    assert(record_ok(v, owner, depth, c as int));
    assert(owner[la] == c as int && depth[la] == 0);
    assert forall|i: int| 0 <= i < n implies #[trigger] record_ok(v1, o1, d1, i) by {
        assert(record_ok(v, owner, depth, i));
        if owner[i] == c as int {
            assert(o1[i] == active_owner());
            assert(d1[i] == depth[i] + du);
            if i == c as int {
                assert(v1.conts[i].common.state == State::Running);
            } else {
                assert(v1.conts[i].common.state == State::Parent);
            }
            if i == la {
                assert(v1.conts[i].parent_chain == v.active);
                if let StackChain::Continuation(a) = v.active {
                    assert(o1[a as int] == active_owner());
                    assert(d1[a as int] == depth[a as int]);
                }
            } else {
                assert(v1.conts[i].parent_chain == v.conts[i].parent_chain);
                if v.conts[i].parent_chain == StackChain::Absent {
                    assert(owner[i] == owner[la] && depth[i] == depth[la]);
                }
                if let StackChain::Continuation(p) = v.conts[i].parent_chain {
                    assert(owner[p as int] == c as int);
                    assert(o1[p as int] == active_owner());
                    assert(d1[p as int] == depth[p as int] + du);
                }
            }
        } else if owner[i] == active_owner() {
            assert(o1[i] == active_owner());
            assert(d1[i] == depth[i]);
            assert(i != la && i != c as int);
            assert(v1.conts[i].parent_chain == v.conts[i].parent_chain);
            if let StackChain::Continuation(p) = v.conts[i].parent_chain {
                assert(o1[p as int] == active_owner());
                assert(d1[p as int] == depth[p as int]);
            }
            if v.active == StackChain::Continuation(i as usize) {
                assert(v1.conts[i].common.state == State::Parent);
                assert(v1.active != StackChain::Continuation(i as usize));
            } else {
                assert(v1.conts[i].common == v.conts[i].common);
            }
        } else if owner[i] == dead_owner() {
            assert(i != la && i != c as int);
            assert(v1.conts[i] == v.conts[i]);
        } else {
            let h = owner[i];
            assert(record_ok(v, owner, depth, h));
            assert(i != la && i != c as int);
            assert(v1.conts[i] == v.conts[i]);
            assert(o1[i] == h && d1[i] == depth[i] && o1[h] == h && d1[h] == depth[h]);
            if let StackChain::Continuation(p) = v.conts[i].parent_chain {
                assert(o1[p as int] == h && d1[p as int] == depth[p as int]);
            }
            if i == h {
                let lh = last_ancestor_of(v.conts[h]) as int;
                assert(head_ok(v.conts, owner, depth, h));
                assert(owner[lh] == h);
                assert(lh != la);
                assert(v1.conts[lh] == v.conts[lh]);
                assert(o1[lh] == h && d1[lh] == 0);
                assert(head_ok(v1.conts, o1, d1, h));
            }
        }
    }
    assert forall|i: int, j: int|
        0 <= i < n && 0 <= j < n && i != j && #[trigger] o1[i] == #[trigger] o1[j] && o1[i] != dead_owner() implies d1[i]
            != d1[j] by {
        assert(record_ok(v, owner, depth, i));
        assert(record_ok(v, owner, depth, j));
        if owner[i] == c as int && owner[j] != c as int {
            assert(owner[j] == active_owner());
            if let StackChain::Continuation(a) = v.active {
                assert(depth[j] <= depth[a as int]);
            }
        } else if owner[j] == c as int && owner[i] != c as int {
            assert(owner[i] == active_owner());
            if let StackChain::Continuation(a) = v.active {
                assert(depth[i] <= depth[a as int]);
            }
        }
    }
    assert(o1[c as int] == active_owner());
    assert forall|i: int| 0 <= i < n && #[trigger] o1[i] == active_owner() implies d1[i] <= d1[c as int] by {
        assert(record_ok(v, owner, depth, i));
        if owner[i] == active_owner() {
            if let StackChain::Continuation(a) = v.active {
                assert(depth[i] <= depth[a as int]);
            } else {
                assert(owner[i] != active_owner());
            }
        }
    }
}

/// The index of the running continuation (0 on the main stack).
pub open spec fn active_index(v: StoreView) -> usize {
    match v.active {
        StackChain::Continuation(a) => a,
        _ => 0,
    }
}

/// A stack that runs again after a child returned or suspended to it:
/// running, its handlers cleared.
pub open spec fn running_again(s: StackView) -> StackView {
    StackView { state: State::Running, handlers: Seq::empty(), first_switch_handler_index: 0, ..s }
}

/// The store after the running continuation returns: it is marked
/// returned and its results are taken; its parent runs again with its
/// handlers cleared, and the runtime takes the parent's limits.
pub open spec fn return_spec(v: StoreView) -> StoreView {
    let a = active_index(v);
    let r = v.conts[a as int];
    let p = r.parent_chain;
    let v1 = StoreView {
        conts: v.conts.update(
            a as int,
            ContView { common: StackView { state: State::Returned, ..r.common }, args: Seq::empty(), ..r },
        ),
        ..v
    };
    let pc = common_of(v1, p);
    let v2 = set_common(v1, p, running_again(pc));
    StoreView { active: p, runtime_limits: pc.limits, ..v2 }
}

/// `v` split at `la` (a continuation on the active chain): the running
/// continuation becomes suspended, heading the chain down to `la`, which
/// loses its parent; it records where wasm was last entered.
pub open spec fn split_spec(v: StoreView, la: usize) -> StoreView {
    let a = active_index(v);
    let conts1 = v.conts.update(la as int, ContView { parent_chain: StackChain::Absent, ..v.conts[la as int] });
    let ra = conts1[a as int];
    let conts2 = conts1.update(
        a as int,
        ContView {
            common: StackView {
                state: State::Suspended,
                limits: StackLimits { last_wasm_entry_fp: v.runtime_limits.last_wasm_entry_fp, ..ra.common.limits },
                ..ra.common
            },
            last_ancestor: Some(la),
            ..ra
        },
    );
    StoreView { conts: conts2, ..v }
}

/// The store after the running continuation suspends to the handler
/// found by the search, `m` (the handling stack and the continuation whose
/// parent it is): the chain is split there, and the handling stack runs
/// again with its handlers cleared, the runtime taking its limits.
pub open spec fn suspend_spec(v: StoreView, m: (StackChain, usize, int)) -> StoreView {
    let v1 = split_spec(v, m.1);
    let hc = common_of(v1, m.0);
    let v2 = set_common(v1, m.0, running_again(hc));
    StoreView { active: m.0, runtime_limits: hc.limits, ..v2 }
}

/// The owner labels after the active chain is split at depth `d`: the
/// part from the running continuation `a` down to depth `d` becomes the
/// chain headed by `a`.
pub open spec fn owner_split(owner: Seq<int>, depth: Seq<int>, a: int, d: int) -> Seq<int> {
    Seq::new(owner.len(), |i: int| if owner[i] == active_owner() && depth[i] >= d { a } else { owner[i] })
}

/// The depth labels after the active chain is split at depth `d`.
pub open spec fn depth_split(owner: Seq<int>, depth: Seq<int>, d: int) -> Seq<int> {
    Seq::new(depth.len(), |i: int| if owner[i] == active_owner() && depth[i] >= d { depth[i] - d } else { depth[i] })
}

/// A handler found by a search from a stack of the active chain belongs to
/// a continuation of the active chain, whose parent is the handling stack.
proof fn lemma_search_on_active(
    v: StoreView,
    owner: Seq<int>,
    depth: Seq<int>,
    link: StackChain,
    tag: usize,
    suspend: bool,
    n: nat,
)
    requires
        store_inv(v, owner, depth),
        link matches StackChain::Continuation(x) ==> x < v.conts.len() && owner[x as int] == active_owner(),
    ensures
        handler_search(v.conts, v.main, link, tag, suspend, n) matches Some(m) ==> {
            &&& m.1 < v.conts.len()
            &&& owner[m.1 as int] == active_owner()
            &&& v.conts[m.1 as int].parent_chain == m.0
            &&& link matches StackChain::Continuation(x) && depth[m.1 as int] <= depth[x as int]
            &&& 0 <= m.2 < common_of(v, m.0).handlers.len()
            &&& common_of(v, m.0).handlers[m.2] == tag
        },
    decreases n,
{
    if let StackChain::Continuation(x) = link {
        if n > 0 && x < v.conts.len() {
            assert(record_ok(v, owner, depth, x as int));
            let parent = v.conts[x as int].parent_chain;
            match stack_at(v.conts, v.main, parent) {
                Some(s) => {
                    if let StackChain::Continuation(p) = parent {
                        assert(handlers_ok(v.conts[p as int].common));
                    }
                    law_found_handler_matches(s.handlers, search_range(s, suspend).0, search_range(s, suspend).1, tag);
                    lemma_search_on_active(v, owner, depth, parent, tag, suspend, (n - 1) as nat);
                },
                None => {
                    lemma_search_on_active(v, owner, depth, parent, tag, suspend, (n - 1) as nat);
                },
            }
        }
    }
}

/// The continuation's return keeps the invariant: it leaves the active
/// chain, whose next stack runs.
proof fn lemma_return_inv(v: StoreView, owner: Seq<int>, depth: Seq<int>)
    requires
        store_inv(v, owner, depth),
        v.active is Continuation,
    ensures
        store_inv(return_spec(v), owner.update(active_index(v) as int, dead_owner()), depth),
{
    let a = active_index(v) as int;
    let n = v.conts.len() as int;
    let v1 = return_spec(v);
    let o1 = owner.update(a, dead_owner());
    assert(record_ok(v, owner, depth, a));
    let p = v.conts[a].parent_chain;
    if let StackChain::Continuation(q) = p {
        assert(record_ok(v, owner, depth, q as int));
        assert(q as int != a);
        assert(handlers_ok(v.conts[q as int].common));
    }
    assert forall|i: int| 0 <= i < n implies #[trigger] handlers_ok(v1.conts[i].common) by {
        assert(handlers_ok(v.conts[i].common));
        assert(record_ok(v, owner, depth, i));
    }
    assert forall|i: int| 0 <= i < n implies #[trigger] record_ok(v1, o1, depth, i) by {
        assert(record_ok(v, owner, depth, i));
        if i != a && owner[i] == active_owner() {
            assert(depth[i] != depth[a]);
            assert(depth[i] <= depth[a]);
            if let StackChain::Continuation(q) = v.conts[i].parent_chain {
                assert(q as int != a);
            }
            if p == StackChain::Continuation(i as usize) {
                assert(v1.conts[i].common.state == State::Running);
            } else {
                assert(v1.conts[i].common == v.conts[i].common);
            }
        } else if i != a && owner[i] >= 0 {
            let h = owner[i];
            assert(record_ok(v, owner, depth, h));
            assert(h != a);
            if let StackChain::Continuation(q) = v.conts[i].parent_chain {
                assert(q as int != a);
            }
            if i == h {
                let lh = last_ancestor_of(v.conts[h]) as int;
                assert(head_ok(v.conts, owner, depth, h));
                assert(lh != a);
            }
        }
    }
    match p {
        StackChain::MainStack(_) => {
            assert forall|i: int| 0 <= i < n implies #[trigger] o1[i] != active_owner() by {
                if i != a && owner[i] == active_owner() {
                    assert(depth[i] <= depth[a]);
                    assert(depth[i] != depth[a]);
                    assert(record_ok(v, owner, depth, i));
                }
            }
        },
        StackChain::Continuation(q) => {
            assert forall|i: int| 0 <= i < n && #[trigger] o1[i] == active_owner() implies depth[i] <= depth[q as int] by {
                assert(depth[i] <= depth[a]);
                assert(depth[i] != depth[a]);
            }
        },
        StackChain::Absent => {},
    }
}

/// Suspending keeps the invariant: the active chain is split at the
/// continuation whose parent handles the tag; the running continuation
/// heads the split-off part, and the handling stack runs.
proof fn lemma_suspend_inv(v: StoreView, owner: Seq<int>, depth: Seq<int>, tag: usize)
    requires
        store_inv(v, owner, depth),
        handler_search(v.conts, v.main, v.active, tag, true, v.conts.len() as nat) is Some,
    ensures
        ({
            let m = handler_search(v.conts, v.main, v.active, tag, true, v.conts.len() as nat)->0;
            let d = depth[m.1 as int];
            store_inv(
                suspend_spec(v, m),
                owner_split(owner, depth, active_index(v) as int, d),
                depth_split(owner, depth, d),
            )
        }),
{
    let m = handler_search(v.conts, v.main, v.active, tag, true, v.conts.len() as nat)->0;
    lemma_search_on_active(v, owner, depth, v.active, tag, true, v.conts.len() as nat);
    let a = active_index(v) as int;
    let la = m.1 as int;
    let h = m.0;
    let d = depth[la];
    let n = v.conts.len() as int;
    let v1 = suspend_spec(v, m);
    let o1 = owner_split(owner, depth, a, d);
    let d1 = depth_split(owner, depth, d);
    assert(record_ok(v, owner, depth, a));
    assert(record_ok(v, owner, depth, la));
    assert(o1[a] == a && o1[la] == a && d1[la] == 0);
    if let StackChain::Continuation(q) = h {
        assert(record_ok(v, owner, depth, q as int));
        assert(depth[q as int] == d - 1);
        assert(q as int != a && q as int != la);
        assert(handlers_ok(v.conts[q as int].common));
    }
    assert forall|i: int| 0 <= i < n implies #[trigger] handlers_ok(v1.conts[i].common) by {
        assert(handlers_ok(v.conts[i].common));
        assert(record_ok(v, owner, depth, i));
    }
    assert forall|i: int| 0 <= i < n implies #[trigger] record_ok(v1, o1, d1, i) by {
        assert(record_ok(v, owner, depth, i));
        if owner[i] == active_owner() && depth[i] >= d {
            assert(o1[i] == a && d1[i] == depth[i] - d);
            assert(depth[i] <= depth[a]);
            if i != la {
                assert(depth[i] != d);
                if let StackChain::Continuation(q) = v.conts[i].parent_chain {
                    assert(o1[q as int] == a && d1[q as int] == depth[q as int] - d);
                }
            }
            if i == a {
                assert(head_ok(v1.conts, o1, d1, a));
            } else {
                assert(v1.conts[i].common.state == State::Parent);
            }
        } else if owner[i] == active_owner() {
            assert(o1[i] == active_owner() && d1[i] == depth[i]);
            assert(i != a && i != la);
            if let StackChain::Continuation(q) = v.conts[i].parent_chain {
                assert(o1[q as int] == active_owner() && d1[q as int] == depth[q as int]);
            }
            if h == StackChain::Continuation(i as usize) {
                assert(v1.conts[i].common.state == State::Running);
            } else {
                assert(v1.conts[i].common == v.conts[i].common);
            }
        } else if owner[i] >= 0 {
            let g = owner[i];
            assert(record_ok(v, owner, depth, g));
            assert(o1[i] == g && o1[g] == g && d1[i] == depth[i] && d1[g] == depth[g]);
            assert(i != a && i != la);
            if let StackChain::Continuation(q) = v.conts[i].parent_chain {
                assert(o1[q as int] == g && d1[q as int] == depth[q as int]);
            }
            if i == g {
                let lg = last_ancestor_of(v.conts[g]) as int;
                assert(head_ok(v.conts, owner, depth, g));
                assert(lg != la && lg != a);
                assert(o1[lg] == g && d1[lg] == 0);
            }
        } else {
            assert(i != a && i != la);
        }
    }
    assert forall|i: int, j: int|
        0 <= i < n && 0 <= j < n && i != j && #[trigger] o1[i] == #[trigger] o1[j] && o1[i] != dead_owner() implies d1[i]
            != d1[j] by {
        assert(record_ok(v, owner, depth, i));
        assert(record_ok(v, owner, depth, j));
        if owner[i] == active_owner() && depth[i] >= d {
            if !(owner[j] == active_owner() && depth[j] >= d) {
                assert(owner[j] == a);
                assert(owner[a] == a);
            }
        } else if owner[j] == active_owner() && depth[j] >= d {
            assert(owner[i] == a);
            assert(owner[a] == a);
        }
    }
    match h {
        StackChain::MainStack(_) => {
            assert(d == 0);
            assert forall|i: int| 0 <= i < n implies #[trigger] o1[i] != active_owner() by {
                assert(record_ok(v, owner, depth, i));
            }
        },
        StackChain::Continuation(q) => {
            assert forall|i: int| 0 <= i < n && #[trigger] o1[i] == active_owner() implies d1[i] <= d1[q as int] by {
                assert(record_ok(v, owner, depth, i));
            }
        },
        StackChain::Absent => {},
    }
}

/// The store after the running continuation switches to continuation `t`
/// with `args`, the switch handler found by the search being `m` (the
/// handling stack and the continuation whose parent it is): the chain is
/// split there as for a suspend, but the handling stack stays a parent:
/// `t` moves to its next revision, receives `args` followed by a handle
/// to the switching continuation, runs, and the end of the chain it heads
/// gets the handling stack as parent; the runtime takes `t`'s limits.
pub open spec fn switch_spec(v: StoreView, t: usize, args: Seq<u128>, m: (StackChain, usize, int)) -> StoreView {
    let a = active_index(v);
    let v1 = split_spec(v, m.1);
    let obj = VMContObj { revision: v1.conts[a as int].revision, contref: a };
    let rt = with_payloads(
        ContView { revision: v1.conts[t as int].revision.wrapping_add(1), ..v1.conts[t as int] },
        args.push(contobj_bits(obj)),
    );
    let conts2 = v1.conts.update(t as int, ContView { common: StackView { state: State::Running, ..rt.common }, ..rt });
    let lt = last_ancestor_of(v.conts[t as int]);
    let conts3 = conts2.update(lt as int, ContView { parent_chain: m.0, ..conts2[lt as int] });
    StoreView {
        conts: conts3,
        active: StackChain::Continuation(t),
        runtime_limits: v.conts[t as int].common.limits,
        ..v1
    }
}

/// Switching keeps the invariant: the active chain is split at the
/// continuation whose parent handles the tag, the switching continuation
/// heading the split-off part, and the chain headed by `t` joins the
/// active chain under the handling stack.
proof fn lemma_switch_inv(v: StoreView, owner: Seq<int>, depth: Seq<int>, t: usize, args: Seq<u128>, tag: usize)
    requires
        store_inv(v, owner, depth),
        resumable(v, t),
        handler_search(v.conts, v.main, v.active, tag, false, v.conts.len() as nat) is Some,
    ensures
        ({
            let m = handler_search(v.conts, v.main, v.active, tag, false, v.conts.len() as nat)->0;
            let d = depth[m.1 as int];
            let o1 = owner_split(owner, depth, active_index(v) as int, d);
            let d1 = depth_split(owner, depth, d);
            store_inv(
                switch_spec(v, t, args, m),
                owner_joined(o1, t as int),
                depth_joined(o1, d1, t as int, d),
            )
        }),
{
    let m = handler_search(v.conts, v.main, v.active, tag, false, v.conts.len() as nat)->0;
    lemma_search_on_active(v, owner, depth, v.active, tag, false, v.conts.len() as nat);
    lemma_resumable_is_head(v, owner, depth, t);
    let a = active_index(v) as int;
    let la = m.1 as int;
    let h = m.0;
    let d = depth[la];
    let n = v.conts.len() as int;
    let ti = t as int;
    let lt = last_ancestor_of(v.conts[ti]) as int;
    let v1 = switch_spec(v, t, args, m);
    let o1 = owner_split(owner, depth, a, d);
    let d1 = depth_split(owner, depth, d);
    let o2 = owner_joined(o1, ti);
    let d2 = depth_joined(o1, d1, ti, d);
    assert(record_ok(v, owner, depth, a));
    assert(record_ok(v, owner, depth, la));
    assert(record_ok(v, owner, depth, ti));
    assert(owner[lt] == ti && depth[lt] == 0);
    assert(ti != a && ti != la && lt != a && lt != la);
    assert(o2[a] == a && o2[la] == a && d2[la] == 0);
    assert(o2[ti] == active_owner() && d2[ti] == depth[ti] + d && d2[lt] == d);
    if let StackChain::Continuation(q) = h {
        assert(record_ok(v, owner, depth, q as int));
        assert(depth[q as int] == d - 1);
        assert(q as int != a && q as int != la && q as int != ti && q as int != lt);
        assert(o2[q as int] == active_owner() && d2[q as int] == d - 1);
    }
    assert forall|i: int| 0 <= i < n implies #[trigger] handlers_ok(v1.conts[i].common) by {
        assert(handlers_ok(v.conts[i].common));
        assert(record_ok(v, owner, depth, i));
    }
    assert forall|i: int| 0 <= i < n implies #[trigger] record_ok(v1, o2, d2, i) by {
        assert(record_ok(v, owner, depth, i));
        if owner[i] == active_owner() && depth[i] >= d {
            assert(o2[i] == a && d2[i] == depth[i] - d);
            assert(depth[i] <= depth[a]);
            assert(i != ti && i != lt);
            if i != la {
                assert(depth[i] != d);
                if let StackChain::Continuation(q) = v.conts[i].parent_chain {
                    assert(o2[q as int] == a && d2[q as int] == depth[q as int] - d);
                }
            }
            if i == a {
                assert(head_ok(v1.conts, o2, d2, a));
            } else {
                assert(v1.conts[i].common.state == State::Parent);
            }
        } else if owner[i] == active_owner() {
            assert(o2[i] == active_owner() && d2[i] == depth[i]);
            assert(i != a && i != la && i != ti && i != lt);
            assert(depth[i] < d);
            if let StackChain::Continuation(q) = v.conts[i].parent_chain {
                assert(o2[q as int] == active_owner() && d2[q as int] == depth[q as int]);
            }
            assert(v1.conts[i] == v.conts[i]);
        } else if owner[i] == ti {
            assert(o2[i] == active_owner() && d2[i] == depth[i] + d);
            assert(i != a && i != la);
            if i == lt {
                assert(v1.conts[i].parent_chain == h);
            } else {
                if v.conts[i].parent_chain == StackChain::Absent {
                    assert(owner[i] == owner[lt] && depth[i] == depth[lt]);
                }
                if let StackChain::Continuation(q) = v.conts[i].parent_chain {
                    assert(owner[q as int] == ti);
                    assert(o2[q as int] == active_owner() && d2[q as int] == depth[q as int] + d);
                }
            }
            if i == ti {
                assert(v1.conts[i].common.state == State::Running);
            } else {
                assert(v1.conts[i].common.state == State::Parent);
            }
        } else if owner[i] >= 0 {
            let g = owner[i];
            assert(record_ok(v, owner, depth, g));
            assert(g != ti && g != a);
            assert(o2[i] == g && o2[g] == g && d2[i] == depth[i] && d2[g] == depth[g]);
            assert(i != a && i != la && i != ti && i != lt);
            if let StackChain::Continuation(q) = v.conts[i].parent_chain {
                assert(o2[q as int] == g && d2[q as int] == depth[q as int]);
            }
            if i == g {
                let lg = last_ancestor_of(v.conts[g]) as int;
                assert(head_ok(v.conts, owner, depth, g));
                assert(lg != la && lg != a && lg != ti && lg != lt);
                assert(o2[lg] == g && d2[lg] == 0);
            }
            assert(v1.conts[i] == v.conts[i]);
        } else {
            assert(i != a && i != la && i != ti && i != lt);
        }
    }
    assert forall|i: int, j: int|
        0 <= i < n && 0 <= j < n && i != j && #[trigger] o2[i] == #[trigger] o2[j] && o2[i] != dead_owner() implies d2[i]
            != d2[j] by {
        assert(record_ok(v, owner, depth, i));
        assert(record_ok(v, owner, depth, j));
        if owner[i] == active_owner() && depth[i] >= d {
            if !(owner[j] == active_owner() && depth[j] >= d) {
                assert(owner[j] == a);
                assert(owner[a] == a);
            }
        } else if owner[j] == active_owner() && depth[j] >= d {
            assert(owner[i] == a);
            assert(owner[a] == a);
        } else if owner[i] == ti && owner[j] != ti {
            assert(owner[j] == active_owner());
        } else if owner[j] == ti && owner[i] != ti {
            assert(owner[i] == active_owner());
        }
    }
    assert forall|i: int| 0 <= i < n && #[trigger] o2[i] == active_owner() implies d2[i] <= d2[ti] by {
        assert(record_ok(v, owner, depth, i));
    }
}

/// Appends `src` to `dst`.
fn append_values(dst: &mut Vec<u128>, src: &[u128])
    ensures
        final(dst)@ == old(dst)@ + src@,
{
    let ghost d0 = dst@;
    let mut i: usize = 0;
    while i < src.len()
        invariant
            i <= src@.len(),
            dst@ == d0 + src@.take(i as int),
        decreases src@.len() - i,
    {
        dst.push(src[i]);
        i = i + 1;
        assert(dst@ =~= d0 + src@.take(i as int));
    }
    assert(src@.take(src@.len() as int) =~= src@);
}

/// Passes payloads `p` to a record (see [`with_payloads`]).
fn store_payloads(rec: &mut ContRecord, p: &[u128])
    ensures
        cont_view(*final(rec)) == with_payloads(cont_view(*old(rec)), p@),
        final(rec).common == old(rec).common,
{
    if rec.common.state == State::Fresh {
        append_values(&mut rec.args, p);
    } else {
        append_values(&mut rec.values, p);
    }
}

/// Changing only the revision and the payload buffers of a record keeps
/// the invariant.
proof fn lemma_payload_update_inv(v: StoreView, owner: Seq<int>, depth: Seq<int>, c: usize, r: ContView)
    requires
        store_inv(v, owner, depth),
        c < v.conts.len(),
        r.common == v.conts[c as int].common,
        r.parent_chain == v.conts[c as int].parent_chain,
        r.last_ancestor == v.conts[c as int].last_ancestor,
    ensures
        store_inv(StoreView { conts: v.conts.update(c as int, r), ..v }, owner, depth),
{
    let v1 = StoreView { conts: v.conts.update(c as int, r), ..v };
    assert forall|i: int| 0 <= i < v1.conts.len() implies #[trigger] handlers_ok(v1.conts[i].common) by {
        assert(handlers_ok(v.conts[i].common));
    }
    assert forall|i: int| 0 <= i < v1.conts.len() implies #[trigger] record_ok(v1, owner, depth, i) by {
        assert(record_ok(v, owner, depth, i));
        if owner[i] >= 0 {
            assert(record_ok(v, owner, depth, owner[i]));
        }
    }
}

/// Installs handlers in a stack about to become a parent: the suspend
/// handlers, then the switch handlers, growing the empty handler list as
/// needed.
fn install_handlers(common: &mut CommonStackInformation, suspend_tags: &[usize], switch_tags: &[usize])
    requires
        old(common).handlers.wf(),
        old(common).handlers.length_spec() == 0,
        suspend_tags@.len() + switch_tags@.len() <= u32::MAX,
    ensures
        final(common).handlers.wf(),
        final(common).handlers.contents() == suspend_tags@ + switch_tags@,
        final(common).first_switch_handler_index == suspend_tags@.len(),
        final(common).state == old(common).state,
        final(common).limits == old(common).limits,
{
    let total: u32 = (suspend_tags.len() + switch_tags.len()) as u32;
    common.handlers.ensure_capacity(total);
    let ghost st0 = common.state;
    let ghost lim0 = common.limits;
    let mut i: usize = 0;
    while i < suspend_tags.len()
        invariant
            i <= suspend_tags@.len(),
            suspend_tags@.len() + switch_tags@.len() <= u32::MAX,
            total == suspend_tags@.len() + switch_tags@.len(),
            common.handlers.wf(),
            common.handlers.capacity_spec() >= total,
            common.handlers.length_spec() == i,
            common.handlers.contents() == suspend_tags@.take(i as int),
            common.state == st0,
            common.limits == lim0,
        decreases suspend_tags@.len() - i,
    {
        common.handlers.push(suspend_tags[i]);
        i = i + 1;
        assert(common.handlers.contents() =~= suspend_tags@.take(i as int));
    }
    assert(suspend_tags@.take(suspend_tags@.len() as int) =~= suspend_tags@);
    let mut j: usize = 0;
    while j < switch_tags.len()
        invariant
            j <= switch_tags@.len(),
            suspend_tags@.len() + switch_tags@.len() <= u32::MAX,
            total == suspend_tags@.len() + switch_tags@.len(),
            common.handlers.wf(),
            common.handlers.capacity_spec() >= total,
            common.handlers.length_spec() == suspend_tags@.len() + j,
            common.handlers.contents() == suspend_tags@ + switch_tags@.take(j as int),
            common.state == st0,
            common.limits == lim0,
        decreases switch_tags@.len() - j,
    {
        common.handlers.push(switch_tags[j]);
        j = j + 1;
        assert(common.handlers.contents() =~= suspend_tags@ + switch_tags@.take(j as int));
    }
    assert(switch_tags@.take(switch_tags@.len() as int) =~= switch_tags@);
    common.first_switch_handler_index = suspend_tags.len() as u32;
}

/// `cont.new` keeps the invariant: the new record heads a chain of its own.
proof fn lemma_cont_new_inv(v: StoreView, owner: Seq<int>, depth: Seq<int>, stack_limit: usize)
    requires
        store_inv(v, owner, depth),
        v.conts.len() + 1 < usize::MAX,
    ensures
        store_inv(cont_new_spec(v, stack_limit), owner.push(v.conts.len() as int), depth.push(0)),
{
    let n = v.conts.len() as int;
    let v1 = cont_new_spec(v, stack_limit);
    let o1 = owner.push(n);
    let d1 = depth.push(0);
    assert forall|i: int| 0 <= i < v1.conts.len() implies #[trigger] handlers_ok(v1.conts[i].common) by {
        if i < n {
            assert(handlers_ok(v.conts[i].common));
        }
    }
    assert forall|i: int| 0 <= i < v1.conts.len() implies #[trigger] record_ok(v1, o1, d1, i) by {
        if i < n {
            assert(record_ok(v, owner, depth, i));
            assert(v1.conts[i] == v.conts[i]);
            if owner[i] >= 0 {
                assert(record_ok(v, owner, depth, owner[i]));
            }
        } else {
            assert(head_ok(v1.conts, o1, d1, n));
        }
    }
    assert forall|i: int, j: int|
        0 <= i < v1.conts.len() && 0 <= j < v1.conts.len() && i != j && #[trigger] o1[i] == #[trigger] o1[j]
            && o1[i] != dead_owner() implies d1[i] != d1[j] by {
        if i < n && j < n {
        } else if i < n {
            assert(record_ok(v, owner, depth, i));
        } else {
            assert(record_ok(v, owner, depth, j));
        }
    }
    match v.active {
        StackChain::MainStack(_) => {
            assert forall|i: int| 0 <= i < v1.conts.len() implies #[trigger] o1[i] != active_owner() by {
                if i < n {
                    assert(owner[i] != active_owner());
                }
            }
        },
        StackChain::Continuation(a) => {
            assert forall|i: int| 0 <= i < v1.conts.len() && #[trigger] o1[i] == active_owner() implies d1[i]
                <= d1[a as int] by {
                if i < n {
                    assert(owner[i] == active_owner());
                }
            }
        },
        StackChain::Absent => {},
    }
}

impl ContinuationStore {
    /// The store is well formed: there are owner and depth labels under
    /// which the invariant holds, and the handler buffers are well formed.
    pub closed spec fn wf(&self) -> bool {
        &&& store_inv(self@, self.owner@, self.depth@)
        &&& self.main.handlers.wf()
        &&& forall|i: int| 0 <= i < self.records@.len() ==> (#[trigger] self.records@[i]).common.handlers.wf()
    }

    /// A store with no continuations, running on the main stack named
    /// `main_id`.
    pub fn new(main_id: usize) -> (r: Self)
        ensures
            r.wf(),
            r@.conts == Seq::<ContView>::empty(),
            r@.main_id == main_id,
            r@.active == StackChain::MainStack(main_id),
            r@.main.state == State::Running,
            r@.main.handlers == Seq::<usize>::empty(),
            r@.main.first_switch_handler_index == 0,
            r@.main.limits == (StackLimits { stack_limit: 0, last_wasm_entry_fp: 0 }),
            r@.runtime_limits == (StackLimits { stack_limit: 0, last_wasm_entry_fp: 0 }),
    {
        let r = ContinuationStore {
            records: Vec::new(),
            main: CommonStackInformation::running_default(),
            main_id,
            active: StackChain::MainStack(main_id),
            runtime_limits: StackLimits::default(),
            owner: Ghost(Seq::empty()),
            depth: Ghost(Seq::empty()),
        };
        assert(conts_view(r.records@) =~= Seq::<ContView>::empty());
        proof {
            r.main.handlers.lemma_contents_len();
            assert(r.main.handlers.contents() =~= Seq::<usize>::empty());
        }
        r
    }

    /// Number of continuation records.
    pub fn len(&self) -> (r: usize)
        ensures
            r == self@.conts.len(),
    {
        self.records.len()
    }

    /// The running stack.
    pub fn active(&self) -> (r: StackChain)
        ensures
            r == self@.active,
    {
        self.active
    }

    /// The record of continuation `c`.
    pub fn record(&self, c: usize) -> (r: &ContRecord)
        requires
            c < self@.conts.len(),
        ensures
            cont_view(*r) == self@.conts[c as int],
    {
        &self.records[c]
    }

    /// The main stack's common information.
    pub fn main_stack(&self) -> (r: &CommonStackInformation)
        ensures
            stack_view(*r) == self@.main,
    {
        &self.main
    }

    /// The limits of the running stack as the runtime has them.
    pub fn runtime_limits(&self) -> (r: StackLimits)
        ensures
            r == self@.runtime_limits,
    {
        self.runtime_limits
    }

    /// Records new runtime limits for the running stack, as wasm entry and
    /// exit trampolines do.
    pub fn set_runtime_limits(&mut self, limits: StackLimits)
        requires
            old(self).wf(),
        ensures
            final(self).wf(),
            final(self)@ == (StoreView { runtime_limits: limits, ..old(self)@ }),
    {
        let ghost v0 = self@;
        self.runtime_limits = limits;
        proof {
            let v1 = self@;
            assert forall|i: int| 0 <= i < v1.conts.len() implies #[trigger] record_ok(v1, self.owner@, self.depth@, i) by {
                assert(record_ok(v0, self.owner@, self.depth@, i));
                if self.owner@[i] >= 0 {
                    assert(record_ok(v0, self.owner@, self.depth@, self.owner@[i]));
                }
            }
        }
    }

    /// `cont.bind`: through a valid handle, appends `args` to the
    /// continuation's arguments and moves it to its next revision, returning
    /// the handle for that revision. A handle whose revision is not the
    /// record's current one (it was used already), or that names no record,
    /// is rejected and nothing changes.
    pub fn cont_bind(&mut self, obj: VMContObj, args: &[u128]) -> (r: Result<VMContObj, ContinuationError>)
        requires
            old(self).wf(),
        ensures
            final(self).wf(),
            handle_valid(old(self)@, obj) ==> r == Ok::<VMContObj, ContinuationError>(
                VMContObj { revision: obj.revision.wrapping_add(1), contref: obj.contref },
            ) && final(self)@ == cont_bind_spec(old(self)@, obj.contref, args@),
            !handle_valid(old(self)@, obj) ==> r == Err::<VMContObj, ContinuationError>(
                ContinuationError::AlreadyConsumed,
            ) && final(self)@ == old(self)@,
    {
        let c = obj.contref;
        if c >= self.records.len() || self.records[c].revision != obj.revision {
            return Err(ContinuationError::AlreadyConsumed);
        }
        let ghost v0 = self@;
        let next = self.records[c].revision.wrapping_add(1);
        self.records[c].revision = next;
        store_payloads(&mut self.records[c], args);
        proof {
            let r0 = v0.conts[c as int];
            lemma_payload_update_inv(
                v0,
                self.owner@,
                self.depth@,
                c,
                with_payloads(ContView { revision: r0.revision.wrapping_add(1), ..r0 }, args@),
            );
            assert(conts_view(self.records@) =~= cont_bind_spec(v0, c, args@).conts);
        }
        Ok(VMContObj::new(c, next))
    }

    /// `resume`: through a valid handle to a fresh or suspended
    /// continuation, makes it the running stack (see [`resume_spec`]), with
    /// the suspend handlers `suspend_tags` and the switch handlers
    /// `switch_tags` installed in the stack that was running. A used handle
    /// (or one naming no record) is rejected with `AlreadyConsumed`; a
    /// continuation that is running, a parent or returned cannot be resumed
    /// (`InvalidState`). Nothing changes on an error.
    pub fn resume(
        &mut self,
        obj: VMContObj,
        args: &[u128],
        suspend_tags: &[usize],
        switch_tags: &[usize],
    ) -> (r: Result<(), ContinuationError>)
        requires
            old(self).wf(),
            suspend_tags@.len() + switch_tags@.len() <= u32::MAX,
        ensures
            final(self).wf(),
            !handle_valid(old(self)@, obj) ==> r == Err::<(), ContinuationError>(ContinuationError::AlreadyConsumed)
                && final(self)@ == old(self)@,
            handle_valid(old(self)@, obj) && !resumable(old(self)@, obj.contref) ==> r == Err::<
                (),
                ContinuationError,
            >(ContinuationError::InvalidState) && final(self)@ == old(self)@,
            handle_valid(old(self)@, obj) && resumable(old(self)@, obj.contref) ==> r is Ok && final(self)@
                == resume_spec(
                old(self)@,
                obj.contref,
                args@,
                suspend_tags@ + switch_tags@,
                suspend_tags@.len() as u32,
            ),
    {
        let c = obj.contref;
        if c >= self.records.len() || self.records[c].revision != obj.revision {
            return Err(ContinuationError::AlreadyConsumed);
        }
        let st = self.records[c].common.state;
        if !(st == State::Fresh || st == State::Suspended) {
            return Err(ContinuationError::InvalidState);
        }
        let ghost v0 = self@;
        let ghost owner0 = self.owner@;
        let ghost depth0 = self.depth@;
        proof {
            lemma_resumable_is_head(v0, owner0, depth0, c);
            if let StackChain::Continuation(a) = v0.active {
                assert(record_ok(v0, owner0, depth0, a as int));
                assert(handlers_ok(v0.conts[a as int].common));
                self.records@[a as int].common.handlers.lemma_contents_len();
            } else {
                self.main.handlers.lemma_contents_len();
            }
        }
        let la: usize = match self.records[c].last_ancestor {
            Some(la) => la,
            None => 0,
        };
        let next = self.records[c].revision.wrapping_add(1);
        let parent_link = self.active;
        self.records[la].parent_chain = parent_link;
        self.records[c].revision = next;
        store_payloads(&mut self.records[c], args);
        self.records[c].common.state = State::Running;
        self.records[c].last_ancestor = None;
        let new_limits = self.records[c].common.limits;
        let saved = self.runtime_limits;
        match parent_link {
            StackChain::Continuation(a) => {
                self.records[a].common.state = State::Parent;
                self.records[a].common.limits = saved;
                install_handlers(&mut self.records[a].common, suspend_tags, switch_tags);
            },
            _ => {
                self.main.state = State::Parent;
                self.main.limits = saved;
                install_handlers(&mut self.main, suspend_tags, switch_tags);
            },
        }
        self.active = StackChain::Continuation(c);
        self.runtime_limits = new_limits;
        proof {
            let hs = suspend_tags@ + switch_tags@;
            let ns = suspend_tags@.len() as u32;
            lemma_resume_inv(v0, owner0, depth0, c, args@, hs, ns);
            self.owner@ = owner_joined(owner0, c as int);
            self.depth@ = depth_joined(owner0, depth0, c as int, depth_under(depth0, v0.active));
            let want = resume_spec(v0, c, args@, hs, ns);
            assert(conts_view(self.records@) =~= want.conts);
            assert(self@ == want);
        }
        Ok(())
    }

    /// The running continuation returned: it is marked returned and its
    /// results (what its arguments buffer holds) are handed back with its
    /// index; its parent runs again (see [`return_spec`]). On the main
    /// stack there is nothing to return from (`NotInContinuation`), and
    /// nothing changes.
    pub fn continuation_return(&mut self) -> (r: Result<(usize, Vec<u128>), ContinuationError>)
        requires
            old(self).wf(),
        ensures
            final(self).wf(),
            !(old(self)@.active is Continuation) ==> r == Err::<(usize, Vec<u128>), ContinuationError>(
                ContinuationError::NotInContinuation,
            ) && final(self)@ == old(self)@,
            old(self)@.active is Continuation ==> (r matches Ok((c, results)) && c == active_index(old(self)@)
                && results@ == old(self)@.conts[c as int].args && final(self)@ == return_spec(old(self)@)),
    {
        let a = match self.active {
            StackChain::Continuation(a) => a,
            _ => return Err(ContinuationError::NotInContinuation),
        };
        let ghost v0 = self@;
        let ghost owner0 = self.owner@;
        let ghost depth0 = self.depth@;
        proof {
            assert(record_ok(v0, owner0, depth0, a as int));
        }
        let parent = self.records[a].parent_chain;
        self.records[a].common.state = State::Returned;
        let mut results: Vec<u128> = Vec::new();
        std::mem::swap(&mut results, &mut self.records[a].args);
        let limits = match parent {
            StackChain::Continuation(p) => {
                self.records[p].common.state = State::Running;
                self.records[p].common.handlers.clear();
                self.records[p].common.first_switch_handler_index = 0;
                self.records[p].common.limits
            },
            _ => {
                self.main.state = State::Running;
                self.main.handlers.clear();
                self.main.first_switch_handler_index = 0;
                self.main.limits
            },
        };
        self.active = parent;
        self.runtime_limits = limits;
        proof {
            lemma_return_inv(v0, owner0, depth0);
            self.owner@ = owner0.update(a as int, dead_owner());
            let want = return_spec(v0);
            assert(conts_view(self.records@) =~= want.conts);
            assert(self@ == want);
        }
        Ok((a, results))
    }

    /// `suspend` with `tag`: searches the suspend handlers of the active
    /// chain. Where a stack handles the tag, the running continuation is
    /// suspended up to that stack, which runs again (see [`suspend_spec`]);
    /// the result is the index of the matching handler and a handle to the
    /// suspended continuation at its current revision. Where none does (in
    /// particular on the main stack), the tag is unhandled and nothing
    /// changes.
    pub fn suspend(&mut self, tag: usize) -> (r: Result<(u32, VMContObj), ContinuationError>)
        requires
            old(self).wf(),
        ensures
            final(self).wf(),
            match handler_search(
                old(self)@.conts,
                old(self)@.main,
                old(self)@.active,
                tag,
                true,
                old(self)@.conts.len() as nat,
            ) {
                Some(m) => r == Ok::<(u32, VMContObj), ContinuationError>(
                    (
                        m.2 as u32,
                        VMContObj {
                            revision: old(self)@.conts[active_index(old(self)@) as int].revision,
                            contref: active_index(old(self)@),
                        },
                    ),
                ) && final(self)@ == suspend_spec(old(self)@, m),
                None => r == Err::<(u32, VMContObj), ContinuationError>(ContinuationError::UnhandledTag)
                    && final(self)@ == old(self)@,
            },
    {
        let found = search_handler(&self.records, &self.main, self.active, tag, true);
        let m = match found {
            Some(m) => m,
            None => return Err(ContinuationError::UnhandledTag),
        };
        let ghost v0 = self@;
        let ghost owner0 = self.owner@;
        let ghost depth0 = self.depth@;
        let ghost sm = handler_search(v0.conts, v0.main, v0.active, tag, true, v0.conts.len() as nat)->0;
        proof {
            lemma_search_on_active(v0, owner0, depth0, v0.active, tag, true, v0.conts.len() as nat);
            lemma_suspend_inv(v0, owner0, depth0, tag);
        }
        let a = match self.active {
            StackChain::Continuation(a) => a,
            _ => 0,
        };
        let la = m.contref;
        self.records[la].parent_chain = StackChain::Absent;
        self.records[a].common.state = State::Suspended;
        self.records[a].common.limits.last_wasm_entry_fp = self.runtime_limits.last_wasm_entry_fp;
        self.records[a].last_ancestor = Some(la);
        let limits = match m.parent_link {
            StackChain::Continuation(p) => {
                self.records[p].common.state = State::Running;
                self.records[p].common.handlers.clear();
                self.records[p].common.first_switch_handler_index = 0;
                self.records[p].common.limits
            },
            _ => {
                self.main.state = State::Running;
                self.main.handlers.clear();
                self.main.first_switch_handler_index = 0;
                self.main.limits
            },
        };
        self.active = m.parent_link;
        self.runtime_limits = limits;
        let obj = VMContObj::new(a, self.records[a].revision);
        proof {
            let d = depth0[la as int];
            self.owner@ = owner_split(owner0, depth0, a as int, d);
            self.depth@ = depth_split(owner0, depth0, d);
            let want = suspend_spec(v0, sm);
            assert(conts_view(self.records@) =~= want.conts);
            assert(self@ == want);
        }
        Ok((m.index, obj))
    }

    /// `switch` to the continuation behind `target`, with `args` and tag
    /// `tag`: searches the switch handlers of the active chain; the running
    /// continuation is suspended up to the handling stack, and the target,
    /// which receives `args` and a handle to the switching continuation,
    /// runs under that stack (see [`switch_spec`]). A used handle (or one
    /// naming no record) is rejected with `AlreadyConsumed`, an unhandled
    /// tag with `UnhandledTag`, a target that is not fresh or suspended
    /// with `InvalidState`, in this order; nothing changes on an error.
    pub fn switch(&mut self, tag: usize, target: VMContObj, args: &[u128]) -> (r: Result<(), ContinuationError>)
        requires
            old(self).wf(),
            args@.len() < usize::MAX,
        ensures
            final(self).wf(),
            !handle_valid(old(self)@, target) ==> r == Err::<(), ContinuationError>(
                ContinuationError::AlreadyConsumed,
            ) && final(self)@ == old(self)@,
            handle_valid(old(self)@, target) ==> match handler_search(
                old(self)@.conts,
                old(self)@.main,
                old(self)@.active,
                tag,
                false,
                old(self)@.conts.len() as nat,
            ) {
                None => r == Err::<(), ContinuationError>(ContinuationError::UnhandledTag) && final(self)@ == old(
                    self,
                )@,
                Some(m) => if resumable(old(self)@, target.contref) {
                    r is Ok && final(self)@ == switch_spec(old(self)@, target.contref, args@, m)
                } else {
                    r == Err::<(), ContinuationError>(ContinuationError::InvalidState) && final(self)@ == old(self)@
                },
            },
    {
        let t = target.contref;
        if t >= self.records.len() || self.records[t].revision != target.revision {
            return Err(ContinuationError::AlreadyConsumed);
        }
        let found = search_handler(&self.records, &self.main, self.active, tag, false);
        let m = match found {
            Some(m) => m,
            None => return Err(ContinuationError::UnhandledTag),
        };
        let st = self.records[t].common.state;
        if !(st == State::Fresh || st == State::Suspended) {
            return Err(ContinuationError::InvalidState);
        }
        let ghost v0 = self@;
        let ghost owner0 = self.owner@;
        let ghost depth0 = self.depth@;
        let ghost sm = handler_search(v0.conts, v0.main, v0.active, tag, false, v0.conts.len() as nat)->0;
        proof {
            lemma_search_on_active(v0, owner0, depth0, v0.active, tag, false, v0.conts.len() as nat);
            lemma_resumable_is_head(v0, owner0, depth0, t);
            lemma_switch_inv(v0, owner0, depth0, t, args@, tag);
        }
        let a = match self.active {
            StackChain::Continuation(a) => a,
            _ => 0,
        };
        let la = m.contref;
        self.records[la].parent_chain = StackChain::Absent;
        self.records[a].common.state = State::Suspended;
        self.records[a].common.limits.last_wasm_entry_fp = self.runtime_limits.last_wasm_entry_fp;
        self.records[a].last_ancestor = Some(la);
        let switcher = VMContObj::new(a, self.records[a].revision);
        let mut payload: Vec<u128> = Vec::new();
        append_values(&mut payload, args);
        payload.push(switcher.to_bits());
        let lt: usize = match self.records[t].last_ancestor {
            Some(x) => x,
            None => 0,
        };
        let next = self.records[t].revision.wrapping_add(1);
        self.records[t].revision = next;
        store_payloads(&mut self.records[t], payload.as_slice());
        self.records[t].common.state = State::Running;
        self.records[lt].parent_chain = m.parent_link;
        let limits = self.records[t].common.limits;
        self.active = StackChain::Continuation(t);
        self.runtime_limits = limits;
        proof {
            let d = depth0[la as int];
            let o1 = owner_split(owner0, depth0, a as int, d);
            let d1 = depth_split(owner0, depth0, d);
            self.owner@ = owner_joined(o1, t as int);
            self.depth@ = depth_joined(o1, d1, t as int, d);
            let want = switch_spec(v0, t, args@, sm);
            assert(payload@ =~= args@.push(contobj_bits(switcher)));
            assert(conts_view(self.records@) =~= want.conts);
            assert(self@ == want);
        }
        Ok(())
    }

    /// What the running continuation receives when it runs again at its
    /// suspend or switch site: the values passed to it since, which are
    /// taken. On the main stack there is none (`NotInContinuation`).
    pub fn receive_values(&mut self) -> (r: Result<Vec<u128>, ContinuationError>)
        requires
            old(self).wf(),
        ensures
            final(self).wf(),
            !(old(self)@.active is Continuation) ==> r == Err::<Vec<u128>, ContinuationError>(
                ContinuationError::NotInContinuation,
            ) && final(self)@ == old(self)@,
            old(self)@.active is Continuation ==> (r matches Ok(vals) && vals@ == old(
                self,
            )@.conts[active_index(old(self)@) as int].values && final(self)@ == StoreView {
                conts: old(self)@.conts.update(
                    active_index(old(self)@) as int,
                    ContView { values: Seq::empty(), ..old(self)@.conts[active_index(old(self)@) as int] },
                ),
                ..old(self)@
            }),
    {
        let a = match self.active {
            StackChain::Continuation(a) => a,
            _ => return Err(ContinuationError::NotInContinuation),
        };
        let ghost v0 = self@;
        proof {
            lemma_payload_update_inv(
                v0,
                self.owner@,
                self.depth@,
                a,
                ContView { values: Seq::empty(), ..v0.conts[a as int] },
            );
        }
        let mut vals: Vec<u128> = Vec::new();
        std::mem::swap(&mut vals, &mut self.records[a].values);
        proof {
            assert(conts_view(self.records@) =~= v0.conts.update(
                a as int,
                ContView { values: Seq::empty(), ..v0.conts[a as int] },
            ));
        }
        Ok(vals)
    }

    /// `cont.new`: a fresh continuation whose stack has the given limit,
    /// and a handle to it at revision 0.
    pub fn cont_new(&mut self, stack_limit: usize) -> (r: VMContObj)
        requires
            old(self).wf(),
            old(self)@.conts.len() + 1 < usize::MAX,
        ensures
            final(self).wf(),
            final(self)@ == cont_new_spec(old(self)@, stack_limit),
            r == (VMContObj { revision: 0, contref: old(self)@.conts.len() as usize }),
    {
        let id = self.records.len();
        let ghost v0 = self@;
        let rec = ContRecord {
            common: CommonStackInformation {
                limits: StackLimits::with_stack_limit(stack_limit),
                state: State::Fresh,
                handlers: HandlerList::new(0),
                first_switch_handler_index: 0,
            },
            parent_chain: StackChain::Absent,
            last_ancestor: Some(id),
            revision: 0,
            args: Vec::new(),
            values: Vec::new(),
        };
        self.records.push(rec);
        proof {
            let owner0 = self.owner@;
            let depth0 = self.depth@;
            lemma_cont_new_inv(v0, owner0, depth0, stack_limit);
            self.owner@ = owner0.push(id as int);
            self.depth@ = depth0.push(0);
            assert(self.records@[id as int].common.handlers.wf());
            assert(stack_view(self.records@[id as int].common).handlers =~= Seq::<usize>::empty()) by {
                self.records@[id as int].common.handlers.lemma_contents_len();
            }
            assert(conts_view(self.records@) =~= v0.conts.push(fresh_cont(stack_limit, id)));
        }
        VMContObj::new(id, 0)
    }
}


/// Following `link` through parents reaches the main stack named
/// `main_id` within `n` continuations.
pub open spec fn reaches_main(conts: Seq<ContView>, link: StackChain, main_id: usize, n: nat) -> bool
    decreases n,
{
    match link {
        StackChain::MainStack(m) => m == main_id,
        StackChain::Continuation(c) => n > 0 && c < conts.len() && reaches_main(
            conts,
            conts[c as int].parent_chain,
            main_id,
            (n - 1) as nat,
        ),
        StackChain::Absent => false,
    }
}

/// The record reached from record `x` after `k` steps to a parent (staying
/// put where the parent is not a continuation).
pub open spec fn chain_node(conts: Seq<ContView>, x: int, k: nat) -> int
    decreases k,
{
    if k == 0 {
        x
    } else {
        match conts[x].parent_chain {
            StackChain::Continuation(p) => chain_node(conts, p as int, (k - 1) as nat),
            _ => x,
        }
    }
}

/// From a record of the active chain, the parents up to its depth are on
/// the active chain, one step less deep each.
proof fn lemma_chain_node(v: StoreView, owner: Seq<int>, depth: Seq<int>, x: int, k: nat)
    requires
        store_inv(v, owner, depth),
        0 <= x < v.conts.len(),
        owner[x] == active_owner(),
        k <= depth[x],
    ensures
        0 <= chain_node(v.conts, x, k) < v.conts.len(),
        owner[chain_node(v.conts, x, k)] == active_owner(),
        depth[chain_node(v.conts, x, k)] == depth[x] - k,
    decreases k,
{
    if k > 0 {
        assert(record_ok(v, owner, depth, x));
        if let StackChain::Continuation(p) = v.conts[x].parent_chain {
            lemma_chain_node(v, owner, depth, p as int, (k - 1) as nat);
        }
    }
}

/// A record of the active chain is less deep than there are records.
proof fn lemma_active_depth_bound(v: StoreView, owner: Seq<int>, depth: Seq<int>, x: int)
    requires
        store_inv(v, owner, depth),
        0 <= x < v.conts.len(),
        owner[x] == active_owner(),
    ensures
        depth[x] < v.conts.len(),
{
    assert(record_ok(v, owner, depth, x));
    let n = v.conts.len() as int;
    let s = Seq::new((depth[x] + 1) as nat, |k: int| chain_node(v.conts, x, k as nat));
    assert forall|k: int| 0 <= k < s.len() implies 0 <= #[trigger] s[k] < n && owner[s[k]] == active_owner()
        && depth[s[k]] == depth[x] - k by {
        lemma_chain_node(v, owner, depth, x, k as nat);
    }
    assert(s.no_duplicates()) by {
        assert forall|a: int, b: int| 0 <= a < s.len() && 0 <= b < s.len() && a != b implies s[a] != s[b] by {
            assert(depth[s[a]] != depth[s[b]]);
        }
    }
    s.unique_seq_to_set();
    assert(s.to_set().subset_of(vstd::set_lib::set_int_range(0, n))) by {
        assert forall|y: int| s.to_set().contains(y) implies vstd::set_lib::set_int_range(0, n).contains(y) by {
            let k = choose|k: int| 0 <= k < s.len() && s[k] == y;
            assert(0 <= s[k] < n);
        }
    }
    vstd::set_lib::lemma_int_range(0, n);
    vstd::set_lib::lemma_len_subset(s.to_set(), vstd::set_lib::set_int_range(0, n));
}

/// From a record of the active chain, the main stack is reached within one
/// step more than the record's depth.
proof fn lemma_active_reaches_main(v: StoreView, owner: Seq<int>, depth: Seq<int>, x: int, n: nat)
    requires
        store_inv(v, owner, depth),
        0 <= x < v.conts.len(),
        owner[x] == active_owner(),
        n > depth[x],
    ensures
        reaches_main(v.conts, StackChain::Continuation(x as usize), v.main_id, n),
    decreases n,
{
    assert(record_ok(v, owner, depth, x));
    let xu = x as usize;
    assert(xu as int == x);
    if let StackChain::Continuation(p) = v.conts[x].parent_chain {
        lemma_active_reaches_main(v, owner, depth, p as int, (n - 1) as nat);
        assert((p as int) as usize == p);
    }
    assert(reaches_main(v.conts, v.conts[x].parent_chain, v.main_id, (n - 1) as nat));
}

impl ContinuationStore {
    /// The active chain ends at the main stack: from the running stack, the
    /// parents lead to the main stack within as many steps as there are
    /// continuation records, so the chain has no cycle.
    pub proof fn law_active_chain_reaches_main(&self)
        requires
            self.wf(),
        ensures
            reaches_main(self@.conts, self@.active, self@.main_id, self@.conts.len() as nat),
    {
        let v = self@;
        if let StackChain::Continuation(a) = v.active {
            lemma_active_depth_bound(v, self.owner@, self.depth@, a as int);
            lemma_active_reaches_main(v, self.owner@, self.depth@, a as int, v.conts.len() as nat);
        }
    }

    /// Exactly one stack runs: the head of the active chain. On the main
    /// stack no continuation runs; otherwise the running continuation is
    /// the only one, and the main stack is a parent.
    pub proof fn law_one_running(&self)
        requires
            self.wf(),
        ensures
            self@.active is MainStack ==> self@.main.state == State::Running && forall|i: int|
                0 <= i < self@.conts.len() ==> #[trigger] self@.conts[i].common.state != State::Running,
            self@.active matches StackChain::Continuation(a) ==> a < self@.conts.len() && self@.conts[a as int].common.state
                == State::Running && self@.main.state == State::Parent && forall|i: int|
                0 <= i < self@.conts.len() && i != a ==> #[trigger] self@.conts[i].common.state != State::Running,
            !(self@.active is Absent),
    {
        let v = self@;
        assert forall|i: int| 0 <= i < v.conts.len() && v.active != StackChain::Continuation(i as usize) implies #[trigger] v.conts[i].common.state
            != State::Running by {
            assert(record_ok(v, self.owner@, self.depth@, i));
        }
        if let StackChain::Continuation(a) = v.active {
            assert(record_ok(v, self.owner@, self.depth@, a as int));
        }
    }

    /// Handles are linear: a handle that `cont.bind`, `resume` or a switch
    /// to its continuation consumed is no longer valid, while the handle
    /// that `cont.bind` returns is.
    pub proof fn law_handles_are_linear(
        &self,
        obj: VMContObj,
        args: Seq<u128>,
        handlers: Seq<usize>,
        n_suspend: u32,
        m: (StackChain, usize, int),
    )
        requires
            self.wf(),
            handle_valid(self@, obj),
        ensures
            !handle_valid(cont_bind_spec(self@, obj.contref, args), obj),
            handle_valid(
                cont_bind_spec(self@, obj.contref, args),
                VMContObj { revision: obj.revision.wrapping_add(1), contref: obj.contref },
            ),
            resumable(self@, obj.contref) ==> !handle_valid(resume_spec(self@, obj.contref, args, handlers, n_suspend), obj),
            resumable(self@, obj.contref) && m.1 < self@.conts.len() ==> !handle_valid(
                switch_spec(self@, obj.contref, args, m),
                obj,
            ),
    {
        let v = self@;
        let c = obj.contref;
        assert(obj.revision.wrapping_add(1) != obj.revision);
        if resumable(v, c) {
            lemma_resumable_is_head(v, self.owner@, self.depth@, c);
            assert(record_ok(v, self.owner@, self.depth@, c as int));
            if let StackChain::Continuation(a) = v.active {
                assert(record_ok(v, self.owner@, self.depth@, a as int));
                assert(a != c);
            }
        }
    }
}

/// On the first `n` handlers, a search in `a + b` finds what a search in
/// `a` finds.
proof fn lemma_first_match_prefix(a: Seq<usize>, b: Seq<usize>, lo: int, tag: usize)
    requires
        0 <= lo <= a.len(),
    ensures
        first_match(a + b, lo, a.len() as int, tag) == first_match(a, lo, a.len() as int, tag),
    decreases a.len() - lo,
{
    if lo < a.len() {
        lemma_first_match_prefix(a, b, lo + 1, tag);
    }
}

impl ContinuationStore {
    /// Resuming a continuation that heads a chain of its own, with a
    /// suspend handler for `tag`, and then suspending it with `tag`, gives
    /// control back to the resuming stack at the first matching handler:
    /// the same stack runs again with the runtime limits it had, its
    /// handler list empty again; the continuation is suspended at its next
    /// revision, heading its own chain again, and a handle for that
    /// revision is valid; no other record changes, and the main stack only
    /// where it was the resuming stack.
    pub proof fn law_resume_then_suspend(
        &self,
        c: usize,
        args: Seq<u128>,
        suspend_tags: Seq<usize>,
        switch_tags: Seq<usize>,
        tag: usize,
    )
        requires
            self.wf(),
            resumable(self@, c),
            self@.conts[c as int].last_ancestor == Some(c),
            suspend_tags.len() + switch_tags.len() <= u32::MAX,
            first_match(suspend_tags, 0, suspend_tags.len() as int, tag) is Some,
        ensures
            ({
                let v = self@;
                let v1 = resume_spec(v, c, args, suspend_tags + switch_tags, suspend_tags.len() as u32);
                let i = first_match(suspend_tags, 0, suspend_tags.len() as int, tag)->0;
                let v2 = suspend_spec(v1, (v.active, c, i));
                &&& handler_search(v1.conts, v1.main, v1.active, tag, true, v1.conts.len() as nat) == Some(
                    (v.active, c, i),
                )
                &&& v2.active == v.active
                &&& v2.runtime_limits == v.runtime_limits
                &&& common_of(v2, v.active) == StackView {
                    state: State::Running,
                    limits: v.runtime_limits,
                    handlers: Seq::empty(),
                    first_switch_handler_index: 0,
                }
                &&& v2.conts[c as int].common.state == State::Suspended
                &&& v2.conts[c as int].revision == v.conts[c as int].revision.wrapping_add(1)
                &&& v2.conts[c as int].parent_chain == StackChain::Absent
                &&& v2.conts[c as int].last_ancestor == Some(c)
                &&& handle_valid(v2, VMContObj { revision: v2.conts[c as int].revision, contref: c })
                &&& resumable(v2, c)
                &&& forall|j: int|
                    0 <= j < v.conts.len() && j != c && v.active != StackChain::Continuation(j as usize)
                        ==> #[trigger] v2.conts[j] == v.conts[j]
                &&& v.active is Continuation ==> v2.main == v.main
            }),
    {
        let v = self@;
        let owner = self.owner@;
        let depth = self.depth@;
        lemma_resumable_is_head(v, owner, depth, c);
        assert(record_ok(v, owner, depth, c as int));
        let hs = suspend_tags + switch_tags;
        let ns = suspend_tags.len() as u32;
        let v1 = resume_spec(v, c, args, hs, ns);
        let i = first_match(suspend_tags, 0, suspend_tags.len() as int, tag)->0;
        lemma_first_match_prefix(suspend_tags, switch_tags, 0, tag);
        if let StackChain::Continuation(a) = v.active {
            assert(record_ok(v, owner, depth, a as int));
            assert(a != c);
        }
        assert(v1.conts[c as int].parent_chain == v.active);
        assert(stack_at(v1.conts, v1.main, v.active) == Some(common_of(v1, v.active)));
        assert(search_range(common_of(v1, v.active), true) == (0int, suspend_tags.len() as int));
        assert(common_of(v1, v.active).handlers == hs);
        assert(handler_search(v1.conts, v1.main, v1.active, tag, true, v1.conts.len() as nat) == Some((v.active, c, i)));
        let v2 = suspend_spec(v1, (v.active, c, i));
        assert(v2.conts[c as int].common.state == State::Suspended);
    }

    /// Resuming a continuation that heads a chain of its own and letting it
    /// return gives control back to the resuming stack: the same stack runs
    /// again with the runtime limits it had and its handler list empty
    /// again; the continuation has returned and its results are what its
    /// argument buffer held while it ran.
    pub proof fn law_resume_then_return(
        &self,
        c: usize,
        args: Seq<u128>,
        suspend_tags: Seq<usize>,
        switch_tags: Seq<usize>,
    )
        requires
            self.wf(),
            resumable(self@, c),
            self@.conts[c as int].last_ancestor == Some(c),
            suspend_tags.len() + switch_tags.len() <= u32::MAX,
        ensures
            ({
                let v = self@;
                let v1 = resume_spec(v, c, args, suspend_tags + switch_tags, suspend_tags.len() as u32);
                let v2 = return_spec(v1);
                &&& v1.active == StackChain::Continuation(c)
                &&& v2.active == v.active
                &&& v2.runtime_limits == v.runtime_limits
                &&& common_of(v2, v.active) == StackView {
                    state: State::Running,
                    limits: v.runtime_limits,
                    handlers: Seq::empty(),
                    first_switch_handler_index: 0,
                }
                &&& v2.conts[c as int].common.state == State::Returned
                &&& v1.conts[c as int].args == (if v.conts[c as int].common.state == State::Fresh {
                    v.conts[c as int].args + args
                } else {
                    v.conts[c as int].args
                })
                &&& forall|j: int|
                    0 <= j < v.conts.len() && j != c && v.active != StackChain::Continuation(j as usize)
                        ==> #[trigger] v2.conts[j] == v.conts[j]
            }),
    {
        let v = self@;
        let owner = self.owner@;
        let depth = self.depth@;
        lemma_resumable_is_head(v, owner, depth, c);
        assert(record_ok(v, owner, depth, c as int));
        if let StackChain::Continuation(a) = v.active {
            assert(record_ok(v, owner, depth, a as int));
            assert(a != c);
        }
    }

    /// A switch hands the switching continuation over: afterwards it is
    /// suspended, the handle at its current revision is valid, and that
    /// handle is the last payload the target received; the target runs.
    pub proof fn law_switch_hands_over_switcher(&self, t: usize, args: Seq<u128>, tag: usize)
        requires
            self.wf(),
            resumable(self@, t),
            handler_search(self@.conts, self@.main, self@.active, tag, false, self@.conts.len() as nat) is Some,
        ensures
            ({
                let v = self@;
                let m = handler_search(v.conts, v.main, v.active, tag, false, v.conts.len() as nat)->0;
                let v1 = switch_spec(v, t, args, m);
                let a = active_index(v);
                let obj = VMContObj { revision: v.conts[a as int].revision, contref: a };
                let rt = v1.conts[t as int];
                &&& v.active == StackChain::Continuation(a)
                &&& v1.active == StackChain::Continuation(t)
                &&& rt.common.state == State::Running
                &&& v1.conts[a as int].common.state == State::Suspended
                &&& handle_valid(v1, obj)
                &&& resumable(v1, a)
                &&& (if v.conts[t as int].common.state == State::Fresh {
                    rt.args
                } else {
                    rt.values
                }) == (if v.conts[t as int].common.state == State::Fresh {
                    v.conts[t as int].args
                } else {
                    v.conts[t as int].values
                }) + args.push(contobj_bits(obj))
            }),
    {
        let v = self@;
        let owner = self.owner@;
        let depth = self.depth@;
        lemma_search_on_active(v, owner, depth, v.active, tag, false, v.conts.len() as nat);
        lemma_resumable_is_head(v, owner, depth, t);
        let m = handler_search(v.conts, v.main, v.active, tag, false, v.conts.len() as nat)->0;
        let a = active_index(v);
        assert(record_ok(v, owner, depth, a as int));
        assert(record_ok(v, owner, depth, m.1 as int));
        assert(record_ok(v, owner, depth, t as int));
        let lt = last_ancestor_of(v.conts[t as int]) as int;
        assert(owner[lt] == t as int);
        assert(t != a && lt != a as int);
    }
}


/// The continuations met following `link` through parents, at most `n`,
/// each with the last wasm entry frame pointer saved by its parent (0 where
/// the parent is no stack).
pub open spec fn chain_entries(conts: Seq<ContView>, main: StackView, link: StackChain, n: nat) -> Seq<(usize, usize)>
    decreases n,
{
    match link {
        StackChain::Continuation(c) => if n > 0 && c < conts.len() {
            let parent = conts[c as int].parent_chain;
            let fp = match stack_at(conts, main, parent) {
                Some(s) => s.limits.last_wasm_entry_fp,
                None => 0,
            };
            seq![(c, fp)] + chain_entries(conts, main, parent, (n - 1) as nat)
        } else {
            Seq::empty()
        },
        _ => Seq::empty(),
    }
}

impl ContinuationStore {
    /// The continuations of the active chain, from the running one to the
    /// one whose parent is the main stack, each with its parent's last
    /// wasm entry frame pointer: where a trace through the parent's frames
    /// ends. (The running stack's own limits are the runtime's.)
    pub fn active_chain_entries(&self) -> (r: Vec<(usize, usize)>)
        requires
            self.wf(),
        ensures
            r@ == chain_entries(self@.conts, self@.main, self@.active, self@.conts.len() as nat),
    {
        let ghost v = self@;
        let mut out: Vec<(usize, usize)> = Vec::new();
        let mut link = self.active;
        let mut fuel: usize = self.records.len();
        loop
            invariant
                fuel <= self@.conts.len(),
                v == self@,
                out@ + chain_entries(v.conts, v.main, link, fuel as nat) == chain_entries(
                    v.conts,
                    v.main,
                    v.active,
                    v.conts.len() as nat,
                ),
            decreases fuel,
        {
            let c = match link {
                StackChain::Continuation(c) => c,
                _ => {
                    assert(out@ + Seq::<(usize, usize)>::empty() =~= out@);
                    return out;
                },
            };
            if fuel == 0 || c >= self.records.len() {
                assert(out@ + Seq::<(usize, usize)>::empty() =~= out@);
                return out;
            }
            let parent = self.records[c].parent_chain;
            let fp: usize = match parent {
                StackChain::Continuation(p) => {
                    if p < self.records.len() {
                        self.records[p].common.limits.last_wasm_entry_fp
                    } else {
                        0
                    }
                },
                StackChain::MainStack(_) => self.main.limits.last_wasm_entry_fp,
                StackChain::Absent => 0,
            };
            let ghost prev = out@;
            out.push((c, fp));
            proof {
                assert(v.conts[c as int].parent_chain == parent);
                assert(prev + chain_entries(v.conts, v.main, link, fuel as nat) =~= out@ + chain_entries(
                    v.conts,
                    v.main,
                    parent,
                    (fuel - 1) as nat,
                ));
            }
            link = parent;
            fuel = fuel - 1;
        }
    }
}


/// From a stack of the active chain, a search gives the same result with
/// any bound on its steps larger than the stack's depth.
proof fn lemma_search_fuel(
    v: StoreView,
    owner: Seq<int>,
    depth: Seq<int>,
    link: StackChain,
    tag: usize,
    suspend: bool,
    k1: nat,
    k2: nat,
)
    requires
        store_inv(v, owner, depth),
        link is MainStack || (link matches StackChain::Continuation(x) && x < v.conts.len() && owner[x as int]
            == active_owner() && k1 > depth[x as int] && k2 > depth[x as int]),
    ensures
        handler_search(v.conts, v.main, link, tag, suspend, k1) == handler_search(
            v.conts,
            v.main,
            link,
            tag,
            suspend,
            k2,
        ),
    decreases k1,
{
    if let StackChain::Continuation(x) = link {
        assert(record_ok(v, owner, depth, x as int));
        let parent = v.conts[x as int].parent_chain;
        lemma_search_fuel(v, owner, depth, parent, tag, suspend, (k1 - 1) as nat, (k2 - 1) as nat);
    }
}

impl ContinuationStore {
    /// The search for a handler covers the whole active chain: bounding it
    /// by the number of records gives the same result as any larger bound,
    /// so a tag is reported unhandled only when no stack of the active
    /// chain handles it.
    pub proof fn law_search_covers_active_chain(&self, tag: usize, suspend: bool, n: nat)
        requires
            self.wf(),
            n >= self@.conts.len(),
        ensures
            handler_search(self@.conts, self@.main, self@.active, tag, suspend, n) == handler_search(
                self@.conts,
                self@.main,
                self@.active,
                tag,
                suspend,
                self@.conts.len() as nat,
            ),
    {
        let v = self@;
        if let StackChain::Continuation(a) = v.active {
            lemma_active_depth_bound(v, self.owner@, self.depth@, a as int);
        }
        lemma_search_fuel(v, self.owner@, self.depth@, v.active, tag, suspend, n, v.conts.len() as nat);
    }

    /// Suspending saves where wasm was last entered on the running stack:
    /// the suspended continuation keeps its own stack limit and takes the
    /// runtime's last wasm entry frame pointer, and resuming it later hands
    /// the runtime exactly those limits again.
    pub proof fn law_suspend_saves_entry_fp(
        &self,
        tag: usize,
        args: Seq<u128>,
        handlers: Seq<usize>,
        n_suspend: u32,
    )
        requires
            self.wf(),
            handler_search(self@.conts, self@.main, self@.active, tag, true, self@.conts.len() as nat) is Some,
        ensures
            ({
                let v = self@;
                let m = handler_search(v.conts, v.main, v.active, tag, true, v.conts.len() as nat)->0;
                let a = active_index(v);
                let v1 = suspend_spec(v, m);
                let saved = StackLimits {
                    stack_limit: v.conts[a as int].common.limits.stack_limit,
                    last_wasm_entry_fp: v.runtime_limits.last_wasm_entry_fp,
                };
                &&& v.active == StackChain::Continuation(a)
                &&& v1.conts[a as int].common.limits == saved
                &&& resumable(v1, a)
                &&& resume_spec(v1, a, args, handlers, n_suspend).runtime_limits == saved
            }),
    {
        let v = self@;
        let owner = self.owner@;
        let depth = self.depth@;
        lemma_search_on_active(v, owner, depth, v.active, tag, true, v.conts.len() as nat);
        let m = handler_search(v.conts, v.main, v.active, tag, true, v.conts.len() as nat)->0;
        let a = active_index(v);
        assert(record_ok(v, owner, depth, a as int));
        assert(record_ok(v, owner, depth, m.1 as int));
        if let StackChain::Continuation(p) = m.0 {
            assert(depth[p as int] == depth[m.1 as int] - 1);
            assert(p != a);
        }
    }

    /// Switching away saves where wasm was last entered on the switching
    /// stack, as suspending does: it keeps its own stack limit and takes the
    /// runtime's last wasm entry frame pointer, and resuming it later hands
    /// the runtime exactly those limits again.
    pub proof fn law_switch_saves_entry_fp(
        &self,
        t: usize,
        args: Seq<u128>,
        tag: usize,
        resume_args: Seq<u128>,
        handlers: Seq<usize>,
        n_suspend: u32,
    )
        requires
            self.wf(),
            resumable(self@, t),
            handler_search(self@.conts, self@.main, self@.active, tag, false, self@.conts.len() as nat) is Some,
        ensures
            ({
                let v = self@;
                let m = handler_search(v.conts, v.main, v.active, tag, false, v.conts.len() as nat)->0;
                let a = active_index(v);
                let v1 = switch_spec(v, t, args, m);
                let saved = StackLimits {
                    stack_limit: v.conts[a as int].common.limits.stack_limit,
                    last_wasm_entry_fp: v.runtime_limits.last_wasm_entry_fp,
                };
                &&& v1.conts[a as int].common.limits == saved
                &&& resumable(v1, a)
                &&& resume_spec(v1, a, resume_args, handlers, n_suspend).runtime_limits == saved
            }),
    {
        let v = self@;
        let owner = self.owner@;
        let depth = self.depth@;
        lemma_search_on_active(v, owner, depth, v.active, tag, false, v.conts.len() as nat);
        lemma_resumable_is_head(v, owner, depth, t);
        let a = active_index(v);
        assert(record_ok(v, owner, depth, a as int));
        assert(record_ok(v, owner, depth, t as int));
        let lt = last_ancestor_of(v.conts[t as int]) as int;
        assert(owner[lt] == t as int);
        assert(t != a && lt != a as int);
    }

    /// For suspend and switch handlers alike, a tag is unhandled exactly
    /// when no continuation of the active chain has a parent with a handler
    /// for it in the searched range; otherwise the nearest such one is
    /// found (see [`law_handler_search_walks_whole_chain`]).
    pub proof fn law_unhandled_only_when_no_ancestor_handles(&self, tag: usize, suspend: bool)
        requires
            self.wf(),
        ensures
            handler_search(self@.conts, self@.main, self@.active, tag, suspend, self@.conts.len() as nat) is None
                <==> forall|k: int|
                0 <= k < chain_from(self@.conts, self@.active, self@.conts.len() as nat).len() ==> !parent_handles(
                    self@.conts,
                    self@.main,
                    #[trigger] chain_from(self@.conts, self@.active, self@.conts.len() as nat)[k],
                    tag,
                    suspend,
                ),
    {
        law_handler_search_walks_whole_chain(
            self@.conts,
            self@.main,
            self@.active,
            tag,
            suspend,
            self@.conts.len() as nat,
        );
    }
}

} // verus!
