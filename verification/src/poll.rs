//! Pollables: resources that can be polled repeatedly for readiness of
//! another resource, and the bookkeeping of `poll_list`.
//!
//! Waiting for readiness is asynchronous work done outside this library;
//! the library groups the pollables of one request by the resource they
//! watch (so that each resource is waited on once) and turns the readiness
//! of the groups into the list of ready positions.

use vstd::prelude::*;
use crate::table::{lookup, Resource, Table, TableError, TableView};

verus! {

/// A host representation of a pollable: the table index of the resource it
/// watches, and whether deleting the pollable deletes that resource too
/// (when the pollable was made from an owning handle).
#[derive(Debug, Clone, Copy, PartialEq, Eq, Structural)]
pub struct Pollable {
    pub index: u32,
    pub remove_index_on_delete: bool,
}

impl Pollable {
    /// The pollable subscribed to `resource`. An owned resource is deleted
    /// with the pollable; a borrowed one becomes the pollable's parent and
    /// cannot be deleted while the pollable lives.
    pub fn subscribe(resource: &Resource) -> (r: Pollable)
        ensures
            r.index == resource.rep_spec(),
            r.remove_index_on_delete == resource.owned_spec(),
    {
        Pollable { index: resource.rep(), remove_index_on_delete: resource.owned() }
    }
}

/// A group of a `poll_list` request: the watched resource and the
/// positions (in the request) of the pollables that watch it.
#[derive(Debug)]
pub struct PollGroup {
    pub index: u32,
    pub positions: Vec<u32>,
}

/// Errors of a `poll_list` request.
#[derive(Debug, Clone, Copy, PartialEq, Eq, Structural)]
pub enum PollError {
    /// The request has more pollables than positions fit in a `u32`.
    TooManyPollables,
    /// Looking up a pollable, or the resource it watches, failed.
    Table(TableError),
}

/// The number of positions a request can have: positions are `u32`.
pub open spec fn max_positions() -> int {
    0x1_0000_0000
}

/// Whether `groups` partitions the positions of `indices` by watched
/// resource: each group has a distinct resource, lists only positions that
/// watch it, at least one, in increasing order, and every position is in a
/// group.
pub open spec fn groups_partition(groups: Seq<(u32, Seq<u32>)>, indices: Seq<u32>) -> bool {
    &&& forall|g: int| 0 <= g < groups.len() ==> #[trigger] groups[g].1.len() > 0
    &&& forall|g: int, h: int| 0 <= g < groups.len() && 0 <= h < groups.len() && g != h ==> groups[g].0 != groups[h].0
    &&& forall|g: int, j: int|
        0 <= g < groups.len() && 0 <= j < groups[g].1.len() ==> groups[g].1[j] < indices.len()
            && indices[groups[g].1[j] as int] == groups[g].0
    &&& forall|g: int, j: int, k: int|
        0 <= g < groups.len() && 0 <= j < k < groups[g].1.len() ==> groups[g].1[j] < groups[g].1[k]
    &&& forall|p: int| 0 <= p < indices.len() ==> #[trigger] covered(groups, indices, p)
}

/// Position `p` of the request is in the group of the resource it watches.
pub open spec fn covered(groups: Seq<(u32, Seq<u32>)>, indices: Seq<u32>, p: int) -> bool {
    exists|g: int| 0 <= g < groups.len() && groups[g].0 == indices[p] && #[trigger] groups[g].1.contains(p as u32)
}

/// The abstract groups.
pub open spec fn groups_view(groups: Seq<PollGroup>) -> Seq<(u32, Seq<u32>)> {
    groups.map_values(|g: PollGroup| (g.index, g.positions@))
}

/// Groups the pollables of a request, given the watched resource of each,
/// by watched resource, in order of first appearance. A request whose
/// positions do not all fit in a `u32` is refused.
pub fn group_by_resource(indices: &[u32]) -> (r: Result<Vec<PollGroup>, PollError>)
    ensures
        indices@.len() > max_positions() ==> r == Err::<Vec<PollGroup>, PollError>(PollError::TooManyPollables),
        indices@.len() <= max_positions() ==> (r matches Ok(groups) && groups_partition(
            groups_view(groups@),
            indices@,
        )),
{
    if indices.len() as u64 > 0xffff_ffffu64 + 1 {
        return Err(PollError::TooManyPollables);
    }
    let mut groups: Vec<PollGroup> = Vec::new();
    let mut ix: usize = 0;
    while ix < indices.len()
        invariant
            ix <= indices@.len() <= max_positions(),
            groups_partition(groups_view(groups@), indices@.take(ix as int)),
            forall|g: int, j: int|
                0 <= g < groups_view(groups@).len() && 0 <= j < groups_view(groups@)[g].1.len()
                    ==> groups_view(groups@)[g].1[j] < ix,
        decreases indices@.len() - ix,
    {
        let key = indices[ix];
        let ghost gv0 = groups_view(groups@);
        let mut found: usize = groups.len();
        let mut g: usize = 0;
        while g < groups.len()
            invariant
                g <= groups@.len(),
                found == groups@.len() ==> forall|h: int| 0 <= h < g ==> groups@[h].index != key,
                found < groups@.len() ==> groups@[found as int].index == key,
                found <= groups@.len(),
            decreases groups@.len() - g,
        {
            if found == groups.len() && groups[g].index == key {
                found = g;
            }
            g = g + 1;
        }
        let ghost before = indices@.take(ix as int);
        let ghost after = indices@.take(ix as int + 1);
        proof {
            assert(after =~= before.push(key));
        }
        let ghost n0 = groups@.len();
        if found < groups.len() {
            let mut positions = Vec::new();
            std::mem::swap(&mut positions, &mut groups[found].positions);
            positions.push(ix as u32);
            groups.set(found, PollGroup { index: key, positions });
            proof {
                assert(groups_view(groups@) =~= gv0.update(found as int, (key, gv0[found as int].1.push(ix as u32))));
            }
        } else {
            let mut positions = Vec::new();
            positions.push(ix as u32);
            groups.push(PollGroup { index: key, positions });
            proof {
                assert(groups_view(groups@) =~= gv0.push((key, seq![ix as u32])));
            }
        }
        proof {
            let gv = groups_view(groups@);
            assert(gv.len() == n0 || gv.len() == n0 + 1);
            assert forall|h: int| 0 <= h < gv.len() implies #[trigger] gv[h].1.len() > 0 by {
                if h < n0 && h != found {
                    assert(gv[h] == gv0[h]);
                }
            }
            assert forall|h: int, j: int| 0 <= h < gv.len() && 0 <= j < gv[h].1.len() implies gv[h].1[j] < after.len()
                && after[gv[h].1[j] as int] == gv[h].0 && gv[h].1[j] <= ix by {
                if h < n0 && j < gv0[h].1.len() {
                    assert(gv[h].1[j] == gv0[h].1[j]);
                    assert(groups@[h].positions@[j] == gv[h].1[j] || true);
                }
            }
            assert forall|h: int, j: int, k: int| 0 <= h < gv.len() && 0 <= j < k < gv[h].1.len() implies gv[h].1[j]
                < gv[h].1[k] by {
                if h < n0 && k < gv0[h].1.len() {
                    assert(gv[h].1[j] == gv0[h].1[j] && gv[h].1[k] == gv0[h].1[k]);
                } else if h < n0 {
                    assert(gv[h].1[j] == gv0[h].1[j]);
                    assert(gv0[h].1[j] < ix);
                }
            }
            assert forall|h: int, h2: int| 0 <= h < gv.len() && 0 <= h2 < gv.len() && h != h2 implies gv[h].0
                != gv[h2].0 by {
                if h < n0 && h2 < n0 {
                    assert(gv[h].0 == gv0[h].0 && gv[h2].0 == gv0[h2].0);
                }
            }
            assert forall|p: int| 0 <= p < after.len() implies #[trigger] covered(gv, after, p) by {
                if p < ix {
                    assert(before[p] == indices@[p]);
                    assert(covered(gv0, before, p));
                    let h = choose|h: int|
                        0 <= h < gv0.len() && gv0[h].0 == before[p] && #[trigger] gv0[h].1.contains(p as u32);
                    let j = choose|j: int| 0 <= j < gv0[h].1.len() && gv0[h].1[j] == p as u32;
                    assert(gv[h].1[j] == p as u32);
                    assert(gv[h].1.contains(p as u32));
                } else {
                    let h = if found < n0 { found as int } else { n0 as int };
                    assert(gv[h].1[gv[h].1.len() - 1] == p as u32);
                    assert(gv[h].1.contains(p as u32));
                }
            }
            assert(forall|g: int, h: int| 0 <= g < gv.len() && 0 <= h < gv.len() && g != h ==> gv[g].0 != gv[h].0);
            assert(forall|g: int, j: int|
                0 <= g < gv.len() && 0 <= j < gv[g].1.len() ==> gv[g].1[j] < after.len()
                    && after[gv[g].1[j] as int] == gv[g].0);
            assert(forall|g: int, j: int, k: int|
                0 <= g < gv.len() && 0 <= j < k < gv[g].1.len() ==> gv[g].1[j] < gv[g].1[k]);
            assert(groups_partition(gv, after));
        }
        ix = ix + 1;
    }
    proof {
        assert(indices@.take(indices@.len() as int) =~= indices@);
    }
    Ok(groups)
}

/// The watched resource of each pollable of a request, looking them up in
/// order; the first failed lookup is the outcome.
pub open spec fn pollable_lookups(t: TableView<Pollable>, ps: Seq<Resource>) -> Result<Seq<u32>, TableError>
    decreases ps.len(),
{
    if ps.len() == 0 {
        Ok(Seq::empty())
    } else {
        match pollable_lookups(t, ps.drop_last()) {
            Err(e) => Err(e),
            Ok(pre) => match lookup(t, ps.last().rep_spec(), ps.last().kind_spec()) {
                Err(e) => Err(e),
                Ok(p) => Ok(pre.push(p.index)),
            },
        }
    }
}

/// The watched resources of a request's pollables: each position is first
/// checked to fit in a `u32`, then its pollable is looked up.
pub open spec fn poll_request(t: TableView<Pollable>, ps: Seq<Resource>) -> Result<Seq<u32>, PollError> {
    let n = if ps.len() > max_positions() {
        max_positions()
    } else {
        ps.len() as int
    };
    match pollable_lookups(t, ps.take(n)) {
        Err(e) => Err(PollError::Table(e)),
        Ok(indices) => if ps.len() > max_positions() {
            Err(PollError::TooManyPollables)
        } else {
            Ok(indices)
        },
    }
}

/// A failed lookup stays the outcome when more pollables follow.
proof fn lemma_lookup_error_stays(t: TableView<Pollable>, ps: Seq<Resource>, k: int, m: int, e: TableError)
    requires
        0 <= k <= m <= ps.len(),
        pollable_lookups(t, ps.take(k)) == Err::<Seq<u32>, TableError>(e),
    ensures
        pollable_lookups(t, ps.take(m)) == Err::<Seq<u32>, TableError>(e),
    decreases m - k,
{
    if m > k {
        lemma_lookup_error_stays(t, ps, k, m - 1, e);
        assert(ps.take(m).drop_last() =~= ps.take(m - 1));
    }
}

/// Looks up the pollables of a request in the table of pollables, in
/// order, and returns the resource each watches (see [`poll_request`]).
pub fn pollable_indices(table: &Table<Pollable>, pollables: &[Resource]) -> (r: Result<Vec<u32>, PollError>)
    ensures
        match poll_request(table@, pollables@) {
            Ok(indices) => r matches Ok(v) && v@ == indices,
            Err(e) => r == Err::<Vec<u32>, PollError>(e),
        },
{
    let mut out: Vec<u32> = Vec::new();
    let mut ix: usize = 0;
    while ix < pollables.len()
        invariant
            ix <= pollables@.len(),
            ix <= max_positions(),
            pollable_lookups(table@, pollables@.take(ix as int)) == Ok::<Seq<u32>, TableError>(out@),
        decreases pollables@.len() - ix,
    {
        if ix as u64 > 0xffff_ffffu64 {
            proof {
                assert(ix == max_positions());
            }
            return Err(PollError::TooManyPollables);
        }
        proof {
            assert(pollables@.take(ix as int + 1).drop_last() =~= pollables@.take(ix as int));
            assert(pollables@.take(ix as int + 1).last() == pollables@[ix as int]);
        }
        match table.get_resource(&pollables[ix]) {
            Ok(p) => {
                out.push(p.index);
            },
            Err(e) => {
                proof {
                    let n = if pollables@.len() > max_positions() {
                        max_positions()
                    } else {
                        pollables@.len() as int
                    };
                    lemma_lookup_error_stays(table@, pollables@, ix as int + 1, n, e);
                }
                return Err(PollError::Table(e));
            },
        }
        ix = ix + 1;
    }
    proof {
        assert(pollables@.take(ix as int) =~= pollables@);
    }
    Ok(out)
}

/// Checks that the resource each group watches is still in the table;
/// otherwise the request fails with `NotPresent`.
pub fn watched_present<V>(table: &Table<V>, groups: &[PollGroup]) -> (r: Result<(), TableError>)
    ensures
        r is Ok <==> forall|g: int| 0 <= g < groups@.len() ==> table@.contains_key(#[trigger] groups@[g].index),
        r is Err ==> r == Err::<(), TableError>(TableError::NotPresent),
{
    let mut g: usize = 0;
    while g < groups.len()
        invariant
            g <= groups@.len(),
            forall|h: int| 0 <= h < g ==> table@.contains_key(#[trigger] groups@[h].index),
        decreases groups@.len() - g,
    {
        if !table.contains_key(groups[g].index) {
            return Err(TableError::NotPresent);
        }
        g = g + 1;
    }
    Ok(())
}

/// The positions of the ready groups, group after group.
pub open spec fn ready_concat(groups: Seq<(u32, Seq<u32>)>, ready: Seq<bool>) -> Seq<u32>
    decreases groups.len(),
{
    if groups.len() == 0 {
        Seq::empty()
    } else {
        ready_concat(groups.drop_last(), ready.take(groups.len() - 1)) + if ready[groups.len() - 1] {
            groups.last().1
        } else {
            Seq::empty()
        }
    }
}

/// The answer to a `poll_list` request once the groups' readiness is known
/// (`ready[g]` for group `g`): the positions of all pollables whose
/// resource is ready, or `None` while none is.
pub fn ready_list(groups: &[PollGroup], ready: &[bool]) -> (r: Option<Vec<u32>>)
    requires
        ready@.len() == groups@.len(),
    ensures
        r is Some <==> exists|g: int| 0 <= g < ready@.len() && ready@[g],
        r matches Some(v) ==> v@ == ready_concat(groups_view(groups@), ready@),
        r matches Some(v) ==> (forall|g: int| 0 <= g < groups@.len() ==> #[trigger] groups@[g].positions@.len() > 0)
            ==> v@.len() > 0,
{
    let mut results: Vec<u32> = Vec::new();
    let mut any_ready = false;
    let mut g: usize = 0;
    while g < groups.len()
        invariant
            g <= groups@.len() == ready@.len(),
            results@ == ready_concat(groups_view(groups@).take(g as int), ready@.take(g as int)),
            any_ready <==> exists|h: int| 0 <= h < g && ready@[h],
        decreases groups@.len() - g,
    {
        let ghost gv = groups_view(groups@);
        proof {
            assert(gv.take(g as int + 1).drop_last() =~= gv.take(g as int));
            assert(ready@.take(g as int + 1).take(g as int) =~= ready@.take(g as int));
        }
        if ready[g] {
            let mut j: usize = 0;
            let ghost r0 = results@;
            while j < groups[g].positions.len()
                invariant
                    g < groups@.len(),
                    j <= groups@[g as int].positions@.len(),
                    results@ == r0 + groups@[g as int].positions@.take(j as int),
                decreases groups@[g as int].positions@.len() - j,
            {
                results.push(groups[g].positions[j]);
                j = j + 1;
                proof {
                    assert(results@ =~= r0 + groups@[g as int].positions@.take(j as int));
                }
            }
            proof {
                assert(groups@[g as int].positions@.take(j as int) =~= groups@[g as int].positions@);
                assert(gv.take(g as int + 1).last() == gv[g as int]);
            }
            any_ready = true;
        } else {
            proof {
                assert(results@ + Seq::<u32>::empty() =~= results@);
            }
        }
        g = g + 1;
    }
    proof {
        assert(groups_view(groups@).take(g as int) =~= groups_view(groups@));
        assert(ready@.take(g as int) =~= ready@);
    }
    proof {
        let gv = groups_view(groups@);
        if any_ready && forall|h: int| 0 <= h < groups@.len() ==> #[trigger] groups@[h].positions@.len() > 0 {
            let h = choose|h: int| 0 <= h < g && ready@[h];
            assert(groups@[h].positions@.len() > 0);
            assert(gv[h].1[0] == groups@[h].positions@[0]);
            assert(gv[h].1.contains(gv[h].1[0]));
            law_ready_positions(gv, ready@, gv[h].1[0]);
        }
    }
    if any_ready {
        Some(results)
    } else {
        None
    }
}

/// A position is in the answer exactly when it belongs to a ready group.
pub proof fn law_ready_positions(groups: Seq<(u32, Seq<u32>)>, ready: Seq<bool>, p: u32)
    requires
        ready.len() == groups.len(),
    ensures
        ready_concat(groups, ready).contains(p) <==> exists|g: int|
            0 <= g < groups.len() && ready[g] && #[trigger] groups[g].1.contains(p),
    decreases groups.len(),
{
    if groups.len() > 0 {
        let n = groups.len() - 1;
        let gs = groups.drop_last();
        let rs = ready.take(n);
        law_ready_positions(gs, rs, p);
        let tail = if ready[n] { groups.last().1 } else { Seq::<u32>::empty() };
        let all = ready_concat(gs, rs) + tail;
        if all.contains(p) {
            let i = choose|i: int| 0 <= i < all.len() && all[i] == p;
            if i < ready_concat(gs, rs).len() {
                assert(ready_concat(gs, rs)[i] == p);
                assert(ready_concat(gs, rs).contains(p));
                let g = choose|g: int| 0 <= g < gs.len() && rs[g] && #[trigger] gs[g].1.contains(p);
                assert(groups[g] == gs[g]);
            } else {
                assert(tail[i - ready_concat(gs, rs).len()] == p);
                assert(groups[n].1.contains(p));
            }
        }
        if exists|g: int| 0 <= g < groups.len() && ready[g] && #[trigger] groups[g].1.contains(p) {
            let g = choose|g: int| 0 <= g < groups.len() && ready[g] && #[trigger] groups[g].1.contains(p);
            if g < n {
                assert(gs[g] == groups[g] && rs[g]);
                assert(gs[g].1.contains(p));
                assert(ready_concat(gs, rs).contains(p));
                let i = choose|i: int| 0 <= i < ready_concat(gs, rs).len() && ready_concat(gs, rs)[i] == p;
                assert(all[i] == p);
            } else {
                let i = choose|i: int| 0 <= i < groups[n].1.len() && groups[n].1[i] == p;
                assert(all[ready_concat(gs, rs).len() + i] == p);
            }
        }
    }
}

/// The positions of a ready-list have no duplicates where each group lists
/// its positions in increasing order and no position is in two groups.
proof fn lemma_ready_concat_no_duplicates(groups: Seq<(u32, Seq<u32>)>, ready: Seq<bool>)
    requires
        ready.len() == groups.len(),
        forall|g: int, j: int, k: int|
            0 <= g < groups.len() && 0 <= j < k < groups[g].1.len() ==> groups[g].1[j] < groups[g].1[k],
        forall|g: int, h: int, j: int, k: int|
            0 <= g < groups.len() && 0 <= h < groups.len() && g != h && 0 <= j < groups[g].1.len() && 0 <= k
                < groups[h].1.len() ==> groups[g].1[j] != groups[h].1[k],
    ensures
        ready_concat(groups, ready).no_duplicates(),
    decreases groups.len(),
{
    if groups.len() > 0 {
        let n = groups.len() - 1;
        let gs = groups.drop_last();
        let rs = ready.take(n);
        lemma_ready_concat_no_duplicates(gs, rs);
        let pre = ready_concat(gs, rs);
        let tail = if ready[n] { groups.last().1 } else { Seq::<u32>::empty() };
        let all = pre + tail;
        assert forall|a: int, b: int| 0 <= a < all.len() && 0 <= b < all.len() && a != b implies all[a] != all[b] by {
            if a < pre.len() && b < pre.len() {
            } else if a >= pre.len() && b >= pre.len() {
                let ja = a - pre.len();
                let jb = b - pre.len();
                if ja < jb {
                    assert(groups[n].1[ja] < groups[n].1[jb]);
                } else {
                    assert(groups[n].1[jb] < groups[n].1[ja]);
                }
            } else {
                let (i, t) = if a < pre.len() { (a, b - pre.len()) } else { (b, a - pre.len()) };
                let x = pre[i];
                assert(pre.contains(x));
                law_ready_positions(gs, rs, x);
                let g = choose|g: int| 0 <= g < gs.len() && rs[g] && #[trigger] gs[g].1.contains(x);
                let j = choose|j: int| 0 <= j < gs[g].1.len() && gs[g].1[j] == x;
                assert(gs[g] == groups[g]);
                assert(groups[g].1[j] != groups[n].1[t]);
            }
        }
    }
}

/// The answer to a `poll_list` request whose pollables watch the resources
/// `indices`, grouped by [`group_by_resource`], once at least one group is
/// ready: it is not empty, lists no position twice, lists only positions of
/// the request, and lists a position exactly when the resource it watches
/// is ready (pollables watching the same resource are reported together).
pub proof fn law_poll_answer(groups: Seq<(u32, Seq<u32>)>, indices: Seq<u32>, ready: Seq<bool>)
    requires
        groups_partition(groups, indices),
        ready.len() == groups.len(),
        exists|g: int| 0 <= g < ready.len() && ready[g],
    ensures
        ready_concat(groups, ready).len() > 0,
        ready_concat(groups, ready).no_duplicates(),
        forall|i: int| 0 <= i < ready_concat(groups, ready).len() ==> ready_concat(groups, ready)[i] < indices.len(),
        forall|p: u32|
            ready_concat(groups, ready).contains(p) <==> p < indices.len() && exists|g: int|
                0 <= g < groups.len() && ready[g] && groups[g].0 == indices[p as int],
{
    let r = ready_concat(groups, ready);
    assert forall|g: int, h: int, j: int, k: int|
        0 <= g < groups.len() && 0 <= h < groups.len() && g != h && 0 <= j < groups[g].1.len() && 0 <= k
            < groups[h].1.len() implies groups[g].1[j] != groups[h].1[k] by {
        if groups[g].1[j] == groups[h].1[k] {
            assert(indices[groups[g].1[j] as int] == groups[g].0);
            assert(indices[groups[h].1[k] as int] == groups[h].0);
        }
    }
    lemma_ready_concat_no_duplicates(groups, ready);
    assert forall|p: u32|
        r.contains(p) <==> p < indices.len() && exists|g: int|
            0 <= g < groups.len() && ready[g] && groups[g].0 == indices[p as int] by {
        law_ready_positions(groups, ready, p);
        if r.contains(p) {
            let g = choose|g: int| 0 <= g < groups.len() && ready[g] && #[trigger] groups[g].1.contains(p);
            let j = choose|j: int| 0 <= j < groups[g].1.len() && groups[g].1[j] == p;
            assert(p < indices.len() && indices[p as int] == groups[g].0);
        }
        if p < indices.len() && exists|g: int| 0 <= g < groups.len() && ready[g] && groups[g].0 == indices[p as int] {
            let g = choose|g: int| 0 <= g < groups.len() && ready[g] && groups[g].0 == indices[p as int];
            assert(covered(groups, indices, p as int));
            let h = choose|h: int|
                0 <= h < groups.len() && groups[h].0 == indices[p as int] && #[trigger] groups[h].1.contains(
                    p as u32,
                );
            assert(h == g);
        }
    }
    assert forall|i: int| 0 <= i < r.len() implies r[i] < indices.len() by {
        assert(r.contains(r[i]));
    }
    let g = choose|g: int| 0 <= g < ready.len() && ready[g];
    assert(groups[g].1.len() > 0);
    let p = groups[g].1[0];
    assert(groups[g].1.contains(p));
    law_ready_positions(groups, ready, p);
}

} // verus!
