//! Planning the debug prints that generated code makes when debug printing
//! is enabled: a message with placeholders (`{}` for an unsigned integer,
//! `{:p}` for a pointer) and one value per placeholder become a list of
//! print actions. Emitting the calls that perform them is done by the code
//! generator.

use vstd::prelude::*;

verus! {

/// One print performed for a debug message.
#[derive(Debug, Clone, Copy, PartialEq, Eq, Structural)]
pub enum PrintAction {
    /// Print the bytes `start..end` of the message.
    Str { start: usize, end: usize },
    /// Print value `i` as an unsigned integer.
    Int(usize),
    /// Print value `i` as a pointer.
    Pointer(usize),
}

/// The placeholder starting at byte `p` of `s`, if any: `Some(false)` for
/// `{}`, `Some(true)` for `{:p}`.
pub open spec fn placeholder_at(s: Seq<u8>, p: int) -> Option<bool> {
    if 0 <= p && p + 2 <= s.len() && s[p] == 0x7bu8 && s[p + 1] == 0x7du8 {
        Some(false)
    } else if 0 <= p && p + 4 <= s.len() && s[p] == 0x7bu8 && s[p + 1] == 0x3au8 && s[p + 2] == 0x70u8 && s[p
        + 3] == 0x7du8 {
        Some(true)
    } else {
        None
    }
}

/// The length of a placeholder.
pub open spec fn placeholder_len(is_pointer: bool) -> int {
    if is_pointer {
        4
    } else {
        2
    }
}

/// The print of the message's bytes `a..b`, if there are any.
pub open spec fn infix(a: int, b: int) -> Seq<PrintAction> {
    if a < b {
        seq![PrintAction::Str { start: a as usize, end: b as usize }]
    } else {
        Seq::empty()
    }
}

/// The number of placeholders in `s` from byte `p` on.
pub open spec fn placeholder_count(s: Seq<u8>, p: int) -> nat
    decreases s.len() - p,
{
    if p < 0 || p >= s.len() {
        0
    } else {
        match placeholder_at(s, p) {
            Some(ptr) => 1 + placeholder_count(s, p + placeholder_len(ptr)),
            None => placeholder_count(s, p + 1),
        }
    }
}

/// The prints for `s` from byte `p` on, the text printed last having ended
/// at `prev` and `i` values having been printed: each placeholder is
/// preceded by the text since the previous one and prints the next value;
/// the text after the last placeholder comes last.
pub open spec fn print_plan(s: Seq<u8>, p: int, prev: int, i: int) -> Seq<PrintAction>
    decreases s.len() - p,
{
    if p < 0 || p >= s.len() {
        infix(prev, s.len() as int)
    } else {
        match placeholder_at(s, p) {
            Some(ptr) => infix(prev, p) + seq![
                if ptr {
                    PrintAction::Pointer(i as usize)
                } else {
                    PrintAction::Int(i as usize)
                },
            ] + print_plan(s, p + placeholder_len(ptr), p + placeholder_len(ptr), i + 1),
            None => print_plan(s, p + 1, prev, i),
        }
    }
}

/// The prints for the message `s` with `nvals` values, or `None` where the
/// number of placeholders differs from the number of values.
pub open spec fn debug_print_plan(s: Seq<u8>, nvals: nat) -> Option<Seq<PrintAction>> {
    if placeholder_count(s, 0) == nvals {
        Some(print_plan(s, 0, 0, 0))
    } else {
        None
    }
}

/// The text that a placeholder stands for in the message.
pub open spec fn placeholder_text(is_pointer: bool) -> Seq<u8> {
    if is_pointer {
        seq![0x7bu8, 0x3au8, 0x70u8, 0x7du8]
    } else {
        seq![0x7bu8, 0x7du8]
    }
}

/// The message text that one print action stands for: its bytes for a piece
/// of text, the placeholder for a value.
pub open spec fn action_text(s: Seq<u8>, a: PrintAction) -> Seq<u8> {
    match a {
        PrintAction::Str { start, end } => s.subrange(start as int, end as int),
        PrintAction::Int(_) => placeholder_text(false),
        PrintAction::Pointer(_) => placeholder_text(true),
    }
}

/// The message text that a list of print actions stands for, in order.
pub open spec fn rendered(s: Seq<u8>, plan: Seq<PrintAction>) -> Seq<u8>
    decreases plan.len(),
{
    if plan.len() == 0 {
        Seq::empty()
    } else {
        rendered(s, plan.drop_last()) + action_text(s, plan.last())
    }
}

/// What two lists of actions stand for, one after the other.
pub proof fn lemma_rendered_concat(s: Seq<u8>, a: Seq<PrintAction>, b: Seq<PrintAction>)
    ensures
        rendered(s, a + b) == rendered(s, a) + rendered(s, b),
    decreases b.len(),
{
    if b.len() == 0 {
        assert(a + b =~= a);
        assert(rendered(s, a) + rendered(s, b) =~= rendered(s, a));
    } else {
        lemma_rendered_concat(s, a, b.drop_last());
        assert((a + b).drop_last() =~= a + b.drop_last());
        assert((a + b).last() == b.last());
        assert(rendered(s, a + b) =~= rendered(s, a) + rendered(s, b));
    }
}

/// A single action stands for its own text.
proof fn lemma_rendered_one(s: Seq<u8>, act: PrintAction)
    ensures
        rendered(s, seq![act]) == action_text(s, act),
{
    assert(seq![act].drop_last() =~= Seq::<PrintAction>::empty());
    assert(seq![act].last() == act);
    assert(rendered(s, Seq::<PrintAction>::empty()) == Seq::<u8>::empty());
    assert(rendered(s, seq![act]) =~= action_text(s, act));
}

/// The print of the bytes `a..b` stands for exactly those bytes.
proof fn lemma_infix_rendered(s: Seq<u8>, a: int, b: int)
    requires
        0 <= a <= b <= s.len(),
        s.len() <= usize::MAX,
    ensures
        rendered(s, infix(a, b)) == s.subrange(a, b),
{
    if a < b {
        lemma_rendered_one(s, PrintAction::Str { start: a as usize, end: b as usize });
    } else {
        assert(s.subrange(a, b) =~= Seq::<u8>::empty());
    }
}

/// The prints planned from byte `p` on, the text printed last having ended
/// at `prev`, stand for the message from `prev` to its end.
proof fn lemma_plan_rendered(s: Seq<u8>, p: int, prev: int, i: int)
    requires
        0 <= prev <= p <= s.len(),
        s.len() <= usize::MAX,
    ensures
        rendered(s, print_plan(s, p, prev, i)) == s.subrange(prev, s.len() as int),
    decreases s.len() - p,
{
    if p >= s.len() {
        lemma_infix_rendered(s, prev, s.len() as int);
    } else {
        match placeholder_at(s, p) {
            Some(ptr) => {
                let l = placeholder_len(ptr);
                let act = if ptr {
                    PrintAction::Pointer(i as usize)
                } else {
                    PrintAction::Int(i as usize)
                };
                let rest = print_plan(s, p + l, p + l, i + 1);
                lemma_plan_rendered(s, p + l, p + l, i + 1);
                lemma_infix_rendered(s, prev, p);
                lemma_rendered_one(s, act);
                lemma_rendered_concat(s, infix(prev, p), seq![act]);
                lemma_rendered_concat(s, infix(prev, p) + seq![act], rest);
                assert(action_text(s, act) =~= s.subrange(p, p + l));
                assert(s.subrange(prev, p) + s.subrange(p, p + l) + s.subrange(p + l, s.len() as int)
                    =~= s.subrange(prev, s.len() as int));
            },
            None => {
                lemma_plan_rendered(s, p + 1, prev, i);
            },
        }
    }
}

/// Nothing of the message is lost or added: printing the planned pieces of
/// text, with each value printed where its placeholder stood, gives back
/// the whole message, the text after the last placeholder included.
pub proof fn law_plan_covers_message(s: Seq<u8>, nvals: nat)
    requires
        s.len() <= usize::MAX,
        debug_print_plan(s, nvals) is Some,
    ensures
        rendered(s, debug_print_plan(s, nvals)->0) == s,
{
    lemma_plan_rendered(s, 0, 0, 0);
    assert(s.subrange(0, s.len() as int) =~= s);
}

/// The indices of the values that a list of actions prints, in order.
pub open spec fn value_indices(plan: Seq<PrintAction>) -> Seq<int>
    decreases plan.len(),
{
    if plan.len() == 0 {
        Seq::empty()
    } else {
        let rest = value_indices(plan.drop_last());
        match plan.last() {
            PrintAction::Str { .. } => rest,
            PrintAction::Int(i) => rest.push(i as int),
            PrintAction::Pointer(i) => rest.push(i as int),
        }
    }
}

/// The values printed by two lists of actions, one after the other.
proof fn lemma_value_indices_concat(a: Seq<PrintAction>, b: Seq<PrintAction>)
    ensures
        value_indices(a + b) == value_indices(a) + value_indices(b),
    decreases b.len(),
{
    if b.len() == 0 {
        assert(a + b =~= a);
        assert(value_indices(a) + value_indices(b) =~= value_indices(a));
    } else {
        lemma_value_indices_concat(a, b.drop_last());
        assert((a + b).drop_last() =~= a + b.drop_last());
        assert((a + b).last() == b.last());
        assert(value_indices(a + b) =~= value_indices(a) + value_indices(b));
    }
}

/// A print of text prints no value.
proof fn lemma_infix_no_values(a: int, b: int)
    ensures
        value_indices(infix(a, b)) == Seq::<int>::empty(),
{
    assert(value_indices(Seq::<PrintAction>::empty()) == Seq::<int>::empty());
    if a < b {
        let st = PrintAction::Str { start: a as usize, end: b as usize };
        assert(seq![st].drop_last() =~= Seq::<PrintAction>::empty());
        assert(seq![st].last() == st);
    }
}

/// The prints planned from byte `p` on, `i` values having been printed,
/// print the values `i`, `i + 1`, ... in order, one per placeholder.
proof fn lemma_plan_values(s: Seq<u8>, p: int, prev: int, i: int)
    requires
        0 <= p <= s.len(),
        0 <= i,
        i + (s.len() - p) <= usize::MAX,
    ensures
        value_indices(print_plan(s, p, prev, i)) == Seq::new(placeholder_count(s, p), |k: int| i + k),
    decreases s.len() - p,
{
    if p >= s.len() {
        lemma_infix_no_values(prev, s.len() as int);
        assert(Seq::new(placeholder_count(s, p), |k: int| i + k) =~= Seq::<int>::empty());
    } else {
        match placeholder_at(s, p) {
            Some(ptr) => {
                let l = placeholder_len(ptr);
                let act = if ptr {
                    PrintAction::Pointer(i as usize)
                } else {
                    PrintAction::Int(i as usize)
                };
                let rest = print_plan(s, p + l, p + l, i + 1);
                lemma_plan_values(s, p + l, p + l, i + 1);
                lemma_value_indices_concat(infix(prev, p), seq![act]);
                lemma_value_indices_concat(infix(prev, p) + seq![act], rest);
                lemma_infix_no_values(prev, p);
                assert(value_indices(Seq::<PrintAction>::empty()) == Seq::<int>::empty());
                assert(seq![act].drop_last() =~= Seq::<PrintAction>::empty());
                assert(seq![act].last() == act);
                assert(value_indices(seq![act]) =~= seq![i]);
                assert(value_indices(print_plan(s, p, prev, i)) =~= Seq::new(
                    placeholder_count(s, p),
                    |k: int| i + k,
                ));
            },
            None => {
                lemma_plan_values(s, p + 1, prev, i);
            },
        }
    }
}

/// Each value is printed once, in order: the plan prints the values
/// `0, 1, ..., nvals - 1`, one for each placeholder of the message.
pub proof fn law_plan_prints_each_value_in_order(s: Seq<u8>, nvals: nat)
    requires
        s.len() <= usize::MAX,
        debug_print_plan(s, nvals) is Some,
    ensures
        value_indices(debug_print_plan(s, nvals)->0) == Seq::new(nvals, |k: int| k),
{
    lemma_plan_values(s, 0, 0, 0);
    assert(Seq::new(nvals, |k: int| 0 + k) =~= Seq::new(nvals, |k: int| k));
}

/// Whether a placeholder starts at byte `p` of `s`, and which.
fn find_placeholder(s: &[u8], p: usize) -> (r: Option<bool>)
    requires
        p < s@.len(),
    ensures
        r == placeholder_at(s@, p as int),
{
    if s.len() - p >= 2 && s[p] == 0x7b && s[p + 1] == 0x7d {
        Some(false)
    } else if s.len() - p >= 4 && s[p] == 0x7b && s[p + 1] == 0x3a && s[p + 2] == 0x70 && s[p + 3] == 0x7d {
        Some(true)
    } else {
        None
    }
}

/// The number of placeholders in `s`.
fn count_placeholders(s: &[u8]) -> (r: usize)
    ensures
        r == placeholder_count(s@, 0),
{
    let mut p: usize = 0;
    let mut c: usize = 0;
    while p < s.len()
        invariant
            p <= s@.len(),
            c <= p,
            c + placeholder_count(s@, p as int) == placeholder_count(s@, 0),
        decreases s@.len() - p,
    {
        match find_placeholder(s, p) {
            Some(ptr) => {
                c = c + 1;
                p = if ptr {
                    p + 4
                } else {
                    p + 2
                };
            },
            None => {
                p = p + 1;
            },
        }
    }
    c
}

/// Plans the prints for the message `s` with `nvals` values (see
/// [`debug_print_plan`]): `None` where the number of placeholders differs
/// from the number of values.
pub fn plan_debug_print(s: &[u8], nvals: usize) -> (r: Option<Vec<PrintAction>>)
    ensures
        match debug_print_plan(s@, nvals as nat) {
            Some(plan) => r matches Some(v) && v@ == plan,
            None => r is None,
        },
{
    if count_placeholders(s) != nvals {
        return None;
    }
    let mut out: Vec<PrintAction> = Vec::new();
    let mut p: usize = 0;
    let mut prev: usize = 0;
    let mut i: usize = 0;
    while p < s.len()
        invariant
            p <= s@.len(),
            prev <= p,
            i <= p,
            out@ + print_plan(s@, p as int, prev as int, i as int) == print_plan(s@, 0, 0, 0),
        decreases s@.len() - p,
    {
        match find_placeholder(s, p) {
            Some(ptr) => {
                let ghost before = out@;
                if prev < p {
                    out.push(PrintAction::Str { start: prev, end: p });
                }
                if ptr {
                    out.push(PrintAction::Pointer(i));
                } else {
                    out.push(PrintAction::Int(i));
                }
                let next: usize = if ptr {
                    p + 4
                } else {
                    p + 2
                };
                proof {
                    let act = if ptr {
                        PrintAction::Pointer(i as usize)
                    } else {
                        PrintAction::Int(i as usize)
                    };
                    assert(out@ =~= before + infix(prev as int, p as int) + seq![act]);
                    assert(before + print_plan(s@, p as int, prev as int, i as int) =~= out@ + print_plan(
                        s@,
                        next as int,
                        next as int,
                        i + 1,
                    ));
                }
                p = next;
                prev = next;
                i = i + 1;
            },
            None => {
                p = p + 1;
            },
        }
    }
    let ghost before = out@;
    if prev < s.len() {
        out.push(PrintAction::Str { start: prev, end: s.len() });
    }
    proof {
        assert(out@ =~= before + infix(prev as int, s@.len() as int));
    }
    Some(out)
}

} // verus!
