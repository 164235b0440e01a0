//! Stack records and handler search: what the runtime keeps of each stack
//! (its state, saved limits and installed handlers), a continuation's
//! record, and the search for the handler of a tag along a chain of
//! stacks.

use vstd::prelude::*;
use crate::continuation::StackChain;
use crate::continuations::{CommonStackInformation, StackLimits, State};

verus! {

/// What generated code and the runtime read of a stack: its state, its
/// saved limits and the handlers it installed while a parent.
pub struct StackView {
    pub state: State,
    pub limits: StackLimits,
    pub handlers: Seq<usize>,
    pub first_switch_handler_index: u32,
}

/// The abstract common information of a stack.
pub open spec fn stack_view(c: CommonStackInformation) -> StackView {
    StackView {
        state: c.state,
        limits: c.limits,
        handlers: c.handlers.contents(),
        first_switch_handler_index: c.first_switch_handler_index,
    }
}

/// A continuation record.
#[derive(Debug)]
pub struct ContRecord {
    /// State, limits and handlers of the continuation's stack.
    pub common: CommonStackInformation,
    /// The parent: another continuation, the main stack, or absent (a
    /// suspended continuation's last ancestor).
    pub parent_chain: StackChain,
    /// For a suspended or fresh continuation: the end of the chain it heads.
    pub last_ancestor: Option<usize>,
    /// The linearity counter.
    pub revision: u64,
    /// Arguments bound or passed to the continuation before it first runs,
    /// then its results.
    pub args: Vec<u128>,
    /// Payloads passed to the continuation after it first ran, received at
    /// its suspend or switch site when it runs again.
    pub values: Vec<u128>,
}

/// The abstract continuation record.
pub struct ContView {
    pub common: StackView,
    pub parent_chain: StackChain,
    pub last_ancestor: Option<usize>,
    pub revision: u64,
    pub args: Seq<u128>,
    pub values: Seq<u128>,
}

/// The abstract view of one record.
pub open spec fn cont_view(r: ContRecord) -> ContView {
    ContView {
        common: stack_view(r.common),
        parent_chain: r.parent_chain,
        last_ancestor: r.last_ancestor,
        revision: r.revision,
        args: r.args@,
        values: r.values@,
    }
}

/// The abstract view of a sequence of records.
pub open spec fn conts_view(rs: Seq<ContRecord>) -> Seq<ContView> {
    rs.map_values(|r: ContRecord| cont_view(r))
}

/// The stack that `link` denotes, if it denotes one.
pub open spec fn stack_at(conts: Seq<ContView>, main: StackView, link: StackChain) -> Option<StackView> {
    match link {
        StackChain::MainStack(_) => Some(main),
        StackChain::Continuation(p) => if p < conts.len() {
            Some(conts[p as int].common)
        } else {
            None
        },
        StackChain::Absent => None,
    }
}

/// The handler indices searched in a stack: its suspend handlers, or its
/// switch handlers.
pub open spec fn search_range(s: StackView, suspend: bool) -> (int, int) {
    if suspend {
        (0, s.first_switch_handler_index as int)
    } else {
        (s.first_switch_handler_index as int, s.handlers.len() as int)
    }
}

/// The first index in `lo..hi` whose handler is `tag`.
pub open spec fn first_match(handlers: Seq<usize>, lo: int, hi: int, tag: usize) -> Option<int>
    decreases hi - lo,
{
    if lo >= hi {
        None
    } else if handlers[lo] == tag {
        Some(lo)
    } else {
        first_match(handlers, lo + 1, hi, tag)
    }
}

/// A found handler lies in the searched range and handles the tag, and no
/// earlier handler in the range does; where none is found, no handler in
/// the range handles the tag.
pub proof fn law_found_handler_matches(handlers: Seq<usize>, lo: int, hi: int, tag: usize)
    requires
        0 <= lo,
        hi <= handlers.len(),
    ensures
        first_match(handlers, lo, hi, tag) matches Some(i) ==> lo <= i < hi && handlers[i] == tag && forall|j: int|
            lo <= j < i ==> handlers[j] != tag,
        first_match(handlers, lo, hi, tag) is None ==> forall|j: int| lo <= j < hi ==> handlers[j] != tag,
    decreases hi - lo,
{
    if lo < hi {
        law_found_handler_matches(handlers, lo + 1, hi, tag);
    }
}

/// The continuations met going up from the stack that `link` denotes
/// through their parents, at most `n` of them, nearest first.
pub open spec fn chain_from(conts: Seq<ContView>, link: StackChain, n: nat) -> Seq<usize>
    decreases n,
{
    match link {
        StackChain::Continuation(c) => if n > 0 && c < conts.len() {
            seq![c] + chain_from(conts, conts[c as int].parent_chain, (n - 1) as nat)
        } else {
            Seq::empty()
        },
        _ => Seq::empty(),
    }
}

/// Whether a stack has a handler for `tag` among its suspend handlers
/// (`suspend`) or its switch handlers.
pub open spec fn handles(s: StackView, tag: usize, suspend: bool) -> bool {
    exists|j: int|
        search_range(s, suspend).0 <= j < search_range(s, suspend).1 && #[trigger] s.handlers[j] == tag
}

/// Whether the parent of continuation `c` is a stack with a handler for
/// `tag` in the searched range.
pub open spec fn parent_handles(conts: Seq<ContView>, main: StackView, c: usize, tag: usize, suspend: bool) -> bool {
    match stack_at(conts, main, conts[c as int].parent_chain) {
        Some(s) => handles(s, tag, suspend),
        None => false,
    }
}

/// Whether the parent of `c` handles the tag is whether the search in that
/// parent's range finds a handler.
proof fn lemma_parent_handles(conts: Seq<ContView>, main: StackView, c: usize, tag: usize, suspend: bool)
    requires
        all_handlers_ok(conts, main),
        c < conts.len(),
    ensures
        parent_handles(conts, main, c, tag, suspend) <==> (stack_at(conts, main, conts[c as int].parent_chain) matches Some(
            s,
        ) && first_match(s.handlers, search_range(s, suspend).0, search_range(s, suspend).1, tag) is Some),
{
    let parent = conts[c as int].parent_chain;
    if let Some(s) = stack_at(conts, main, parent) {
        if let StackChain::Continuation(p) = parent {
            assert(handlers_ok(conts[p as int].common));
        }
        let (lo, hi) = search_range(s, suspend);
        law_found_handler_matches(s.handlers, lo, hi, tag);
        if let Some(i) = first_match(s.handlers, lo, hi, tag) {
            assert(s.handlers[i] == tag);
        }
    }
}

/// The search for a handler walks the whole chain of ancestors, for suspend
/// and switch handlers alike: it finds nothing exactly when no continuation
/// on the chain has a parent with a handler for the tag in the searched
/// range; otherwise it stops at the nearest such continuation, whose parent
/// it reports together with the first matching handler there.
pub proof fn law_handler_search_walks_whole_chain(
    conts: Seq<ContView>,
    main: StackView,
    link: StackChain,
    tag: usize,
    suspend: bool,
    n: nat,
)
    requires
        all_handlers_ok(conts, main),
    ensures
        ({
            let ch = chain_from(conts, link, n);
            &&& handler_search(conts, main, link, tag, suspend, n) is None <==> forall|k: int|
                0 <= k < ch.len() ==> !parent_handles(conts, main, #[trigger] ch[k], tag, suspend)
            &&& handler_search(conts, main, link, tag, suspend, n) matches Some((p, c, i)) ==> {
                &&& exists|k: int|
                    0 <= k < ch.len() && #[trigger] ch[k] == c && forall|k2: int|
                        0 <= k2 < k ==> !parent_handles(conts, main, #[trigger] ch[k2], tag, suspend)
                &&& c < conts.len()
                &&& p == conts[c as int].parent_chain
                &&& stack_at(conts, main, p) matches Some(s) && search_range(s, suspend).0 <= i < search_range(
                    s,
                    suspend,
                ).1 && s.handlers[i] == tag && forall|j: int|
                    search_range(s, suspend).0 <= j < i ==> s.handlers[j] != tag
            }
        }),
    decreases n,
{
    let ch = chain_from(conts, link, n);
    if let StackChain::Continuation(c) = link {
        if n > 0 && c < conts.len() {
            let parent = conts[c as int].parent_chain;
            let rest = chain_from(conts, parent, (n - 1) as nat);
            law_handler_search_walks_whole_chain(conts, main, parent, tag, suspend, (n - 1) as nat);
            lemma_parent_handles(conts, main, c, tag, suspend);
            assert(ch == seq![c] + rest);
            assert(ch[0] == c);
            assert forall|k: int| 1 <= k < ch.len() implies #[trigger] ch[k] == rest[k - 1] by {}
            if let Some(s) = stack_at(conts, main, parent) {
                if let StackChain::Continuation(p) = parent {
                    assert(handlers_ok(conts[p as int].common));
                }
                law_found_handler_matches(s.handlers, search_range(s, suspend).0, search_range(s, suspend).1, tag);
            }
            if parent_handles(conts, main, c, tag, suspend) {
                assert(ch[0] == c);
            } else {
                assert forall|k: int| 0 <= k < rest.len() implies #[trigger] rest[k] == ch[k + 1] by {}
                if forall|k: int| 0 <= k < ch.len() ==> !parent_handles(conts, main, #[trigger] ch[k], tag, suspend) {
                    assert forall|k: int| 0 <= k < rest.len() implies !parent_handles(
                        conts,
                        main,
                        #[trigger] rest[k],
                        tag,
                        suspend,
                    ) by {
                        assert(rest[k] == ch[k + 1]);
                    }
                }
                match handler_search(conts, main, parent, tag, suspend, (n - 1) as nat) {
                    None => {
                        assert forall|k: int| 0 <= k < ch.len() implies !parent_handles(
                            conts,
                            main,
                            #[trigger] ch[k],
                            tag,
                            suspend,
                        ) by {
                            if k > 0 {
                                assert(ch[k] == rest[k - 1]);
                            }
                        }
                    },
                    Some((p2, c2, i2)) => {
                        let k0 = choose|k: int|
                            0 <= k < rest.len() && #[trigger] rest[k] == c2 && forall|k2: int|
                                0 <= k2 < k ==> !parent_handles(conts, main, #[trigger] rest[k2], tag, suspend);
                        assert(ch[k0 + 1] == rest[k0]);
                        assert forall|k2: int| 0 <= k2 < k0 + 1 implies !parent_handles(
                            conts,
                            main,
                            #[trigger] ch[k2],
                            tag,
                            suspend,
                        ) by {
                            if k2 > 0 {
                                assert(ch[k2] == rest[k2 - 1]);
                            }
                        }
                    },
                }
            }
        }
    }
}

/// The match found when searching for a handler: the stack whose handler
/// matched (the parent of `contref`), the continuation whose parent it is,
/// and the index of the handler.
#[derive(Debug, Clone, Copy, PartialEq, Eq, Structural)]
pub struct HandlerMatch {
    pub parent_link: StackChain,
    pub contref: usize,
    pub index: u32,
}

/// Whether a stack's handler list is consistent: the switch handlers start
/// within it, and it is empty unless the stack is a parent.
pub open spec fn handlers_ok(s: StackView) -> bool {
    &&& s.first_switch_handler_index <= s.handlers.len() <= u32::MAX
    &&& s.state != State::Parent ==> s.handlers.len() == 0 && s.first_switch_handler_index == 0
}

/// Every stack's handler list is consistent.
pub open spec fn all_handlers_ok(conts: Seq<ContView>, main: StackView) -> bool {
    &&& handlers_ok(main)
    &&& forall|i: int| 0 <= i < conts.len() ==> #[trigger] handlers_ok(conts[i].common)
}

/// The outcome of searching for a handler of `tag`, starting with the
/// stack that `link` denotes and going up through its parents, at most `n`
/// continuations far: for the first continuation met whose parent has a
/// handler for `tag`, that parent, the continuation and the handler's
/// index; `None` (the tag is unhandled) once the chain ends.
pub open spec fn handler_search(
    conts: Seq<ContView>,
    main: StackView,
    link: StackChain,
    tag: usize,
    suspend: bool,
    n: nat,
) -> Option<(StackChain, usize, int)>
    decreases n,
{
    match link {
        StackChain::Continuation(c) => if n > 0 && c < conts.len() {
            let parent = conts[c as int].parent_chain;
            match stack_at(conts, main, parent) {
                Some(s) => match first_match(s.handlers, search_range(s, suspend).0, search_range(s, suspend).1, tag) {
                    Some(i) => Some((parent, c, i)),
                    None => handler_search(conts, main, parent, tag, suspend, (n - 1) as nat),
                },
                None => handler_search(conts, main, parent, tag, suspend, (n - 1) as nat),
            }
        } else {
            None
        },
        _ => None,
    }
}

/// The common information of the stack that `link` denotes, or `None`.
fn common_at<'a>(records: &'a [ContRecord], main: &'a CommonStackInformation, link: StackChain) -> (r: Option<
    &'a CommonStackInformation,
>)
    ensures
        match r {
            Some(c) => stack_at(conts_view(records@), stack_view(*main), link) == Some(stack_view(*c)) && (
            link is MainStack ==> *c == *main) && (link matches StackChain::Continuation(p) ==> p < records@.len()
                && *c == records@[p as int].common),
            None => stack_at(conts_view(records@), stack_view(*main), link) is None,
        },
{
    match link {
        StackChain::MainStack(_) => Some(main),
        StackChain::Continuation(p) => {
            if p < records.len() {
                Some(&records[p].common)
            } else {
                None
            }
        },
        StackChain::Absent => None,
    }
}

/// The index of the first handler of `tag` in the searched range of a
/// stack (its suspend handlers, or its switch handlers).
fn first_handler(common: &CommonStackInformation, tag: usize, suspend: bool) -> (r: Option<u32>)
    requires
        common.handlers.wf(),
        handlers_ok(stack_view(*common)),
    ensures
        match first_match(
            stack_view(*common).handlers,
            search_range(stack_view(*common), suspend).0,
            search_range(stack_view(*common), suspend).1,
            tag,
        ) {
            Some(i) => r == Some(i as u32),
            None => r is None,
        },
{
    let ghost hs = common.handlers.contents();
    proof {
        common.handlers.lemma_contents_len();
    }
    let lo: usize = if suspend {
        0
    } else {
        common.first_switch_handler_index as usize
    };
    let hi: usize = if suspend {
        common.first_switch_handler_index as usize
    } else {
        common.handlers.get_length() as usize
    };
    let mut i: usize = lo;
    while i < hi
        invariant
            common.handlers.wf(),
            hs == common.handlers.contents(),
            hs.len() == common.handlers.length_spec(),
            lo <= i <= hi <= hs.len() <= u32::MAX,
            search_range(stack_view(*common), suspend) == (lo as int, hi as int),
            first_match(hs, lo as int, hi as int, tag) == first_match(hs, i as int, hi as int, tag),
        decreases hi - i,
    {
        if *common.handlers.get(i) == tag {
            assert(first_match(hs, i as int, hi as int, tag) == Some(i as int));
            return Some(i as u32);
        }
        i = i + 1;
    }
    None
}

/// Searches for a handler of `tag` among the suspend handlers (`suspend`)
/// or the switch handlers of the ancestors of the stack that `start`
/// denotes: for each continuation met, the handlers its parent installed
/// when resuming it are tried in order; the first match wins. `None` means
/// the search left the chain (it reached the main stack, or went further
/// than there are records): the tag is unhandled.
pub fn search_handler(
    records: &[ContRecord],
    main: &CommonStackInformation,
    start: StackChain,
    tag: usize,
    suspend: bool,
) -> (r: Option<HandlerMatch>)
    requires
        main.handlers.wf(),
        forall|i: int| 0 <= i < records@.len() ==> (#[trigger] records@[i]).common.handlers.wf(),
        all_handlers_ok(conts_view(records@), stack_view(*main)),
    ensures
        match handler_search(conts_view(records@), stack_view(*main), start, tag, suspend, records@.len() as nat) {
            Some((parent, c, i)) => r == Some(HandlerMatch { parent_link: parent, contref: c, index: i as u32 }),
            None => r is None,
        },
{
    let ghost cv = conts_view(records@);
    let ghost mv = stack_view(*main);
    let mut link = start;
    let mut fuel: usize = records.len();
    loop
        invariant
            fuel <= records@.len(),
            cv == conts_view(records@),
            mv == stack_view(*main),
            main.handlers.wf(),
            forall|i: int| 0 <= i < records@.len() ==> (#[trigger] records@[i]).common.handlers.wf(),
            all_handlers_ok(cv, mv),
            handler_search(cv, mv, link, tag, suspend, fuel as nat) == handler_search(
                cv,
                mv,
                start,
                tag,
                suspend,
                records@.len() as nat,
            ),
        decreases fuel,
    {
        if fuel == 0 {
            return None;
        }
        let c = match link {
            StackChain::Continuation(c) => c,
            _ => return None,
        };
        if c >= records.len() {
            return None;
        }
        let parent = records[c].parent_chain;
        assert(cv[c as int].parent_chain == parent);
        let found: Option<u32> = match common_at(records, main, parent) {
            Some(h) => {
                proof {
                    if let StackChain::Continuation(p) = parent {
                        assert(handlers_ok(cv[p as int].common));
                    }
                }
                first_handler(h, tag, suspend)
            },
            None => None,
        };
        if let Some(i) = found {
            return Some(HandlerMatch { parent_link: parent, contref: c, index: i });
        }
        link = parent;
        fuel = fuel - 1;
    }
}

} // verus!
