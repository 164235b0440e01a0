//! A table mapping `u32` handles to resources, with parent/child tracking.
//!
//! Every entry records the kind of resource it holds; typed accessors compare
//! the kind they expect with the recorded one and report
//! [`TableError::WrongType`] on a mismatch.
//!
//! Parents and children are referred to by table index. The table keeps the
//! following invariants, which prevent orphans:
//! * a parent can only be assigned when the entry is created,
//! * the parent, if any, must exist when the entry is created,
//! * whenever a child is created, its index is added to the parent's children,
//! * whenever a child is deleted, its index is removed from them,
//! * an entry with children may not be deleted.

use std::collections::{BTreeSet, HashMap};
use vstd::prelude::*;

verus! {

broadcast use vstd::std_specs::hash::group_hash_axioms, vstd::std_specs::btree::group_btree_axioms, vstd::laws_cmp::group_laws_cmp;

/// Identifies the type of resource that a table entry holds.
pub type ResourceKind = u64;

/// Errors reported by [`Table`] operations.
#[derive(Debug, Clone, Copy, PartialEq, Eq, Structural)]
pub enum TableError {
    /// The table has no free keys.
    Full,
    /// The value is not present.
    NotPresent,
    /// The value is of another type.
    WrongType,
    /// The entry still has children.
    HasChildren,
}

/// A typed handle to a table entry: its index, the kind of resource it refers
/// to, and whether the handle owns the resource.
#[derive(Debug, Clone, Copy, PartialEq, Eq, Structural)]
pub struct Resource {
    rep: u32,
    kind: ResourceKind,
    owned: bool,
}

impl Resource {
    pub closed spec fn rep_spec(&self) -> u32 {
        self.rep
    }

    pub closed spec fn kind_spec(&self) -> ResourceKind {
        self.kind
    }

    pub closed spec fn owned_spec(&self) -> bool {
        self.owned
    }

    /// An owning handle to the entry at `rep`, holding a resource of `kind`.
    pub fn new_own(rep: u32, kind: ResourceKind) -> (r: Resource)
        ensures
            r.rep_spec() == rep,
            r.kind_spec() == kind,
            r.owned_spec(),
    {
        Resource { rep, kind, owned: true }
    }

    /// A borrowing handle to the entry at `rep`, holding a resource of `kind`.
    pub fn new_borrow(rep: u32, kind: ResourceKind) -> (r: Resource)
        ensures
            r.rep_spec() == rep,
            r.kind_spec() == kind,
            !r.owned_spec(),
    {
        Resource { rep, kind, owned: false }
    }

    /// The table index of the entry.
    pub fn rep(&self) -> (r: u32)
        ensures
            r == self.rep_spec(),
    {
        self.rep
    }

    /// The kind of resource the handle refers to.
    pub fn kind(&self) -> (r: ResourceKind)
        ensures
            r == self.kind_spec(),
    {
        self.kind
    }

    /// Whether the handle owns the resource.
    pub fn owned(&self) -> (r: bool)
        ensures
            r == self.owned_spec(),
    {
        self.owned
    }
}

/// What the table holds at one index.
pub struct EntryView<V> {
    pub kind: ResourceKind,
    pub value: V,
    pub parent: Option<u32>,
    pub children: Set<u32>,
}

/// The abstract contents of a table: index to entry.
pub type TableView<V> = Map<u32, EntryView<V>>;

/// An entry in the table: the resource, the index of its parent if it has
/// one, and the indices of its children.
struct TableEntry<V> {
    kind: ResourceKind,
    entry: V,
    parent: Option<u32>,
    children: BTreeSet<u32>,
}

impl<V> TableEntry<V> {
    closed spec fn view(&self) -> EntryView<V> {
        EntryView { kind: self.kind, value: self.entry, parent: self.parent, children: self.children@ }
    }

    fn new(kind: ResourceKind, entry: V, parent: Option<u32>) -> (r: Self)
        ensures
            r.view() == fresh_entry(kind, entry, parent),
    {
        TableEntry { kind, entry, parent, children: BTreeSet::new() }
    }

    fn add_child(&mut self, child: u32)
        ensures
            final(self).view() == (EntryView { children: old(self).view().children.insert(child), ..old(self).view() }),
    {
        self.children.insert(child);
    }

    fn remove_child(&mut self, child: u32)
        ensures
            final(self).view() == (EntryView { children: old(self).view().children.remove(child), ..old(self).view() }),
    {
        self.children.remove(&child);
    }
}

/// The entry `e` holding `v` in place of its value.
pub open spec fn with_value<V>(e: EntryView<V>, v: V) -> EntryView<V> {
    EntryView { value: v, ..e }
}

/// A fresh entry: no children yet.
pub open spec fn fresh_entry<V>(kind: ResourceKind, value: V, parent: Option<u32>) -> EntryView<V> {
    EntryView { kind, value, parent, children: Set::empty() }
}

/// The parent/child relation is consistent: every parent exists and lists its
/// children, and every listed child exists and names its parent.
pub open spec fn links_consistent<V>(m: TableView<V>) -> bool {
    &&& forall|k: u32, p: u32|
        #![trigger m[k].parent, m[p]]
        m.contains_key(k) && m[k].parent == Some(p) ==> m.contains_key(p) && m[p].children.contains(k)
    &&& forall|k: u32, c: u32|
        #![trigger m[k].children.contains(c)]
        m.contains_key(k) && m[k].children.contains(c) ==> m.contains_key(c) && m[c].parent == Some(k)
}

/// A table view that a [`Table`] can have: consistent links and at most
/// `u32::MAX` entries.
pub open spec fn view_wf<V>(m: TableView<V>) -> bool {
    &&& links_consistent(m)
    &&& m.dom().finite()
    &&& m.len() <= u32::MAX
}

/// The table after inserting a fresh entry at `key`, recorded as a child of
/// `parent` if there is one.
pub open spec fn after_insert<V>(
    m: TableView<V>,
    key: u32,
    kind: ResourceKind,
    value: V,
    parent: Option<u32>,
) -> TableView<V> {
    let m1 = m.insert(key, fresh_entry(kind, value, parent));
    match parent {
        Some(p) => m1.insert(p, EntryView { children: m1[p].children.insert(key), ..m1[p] }),
        None => m1,
    }
}

/// The table after removing the entry at `key` and unlinking it from its
/// parent.
pub open spec fn after_remove<V>(m: TableView<V>, key: u32) -> TableView<V> {
    let m1 = m.remove(key);
    match m[key].parent {
        Some(p) => m1.insert(p, EntryView { children: m1[p].children.remove(key), ..m1[p] }),
        None => m1,
    }
}

/// What a typed lookup of `key` as a resource of `kind` yields.
pub open spec fn lookup<V>(m: TableView<V>, key: u32, kind: ResourceKind) -> Result<V, TableError> {
    if !m.contains_key(key) {
        Err(TableError::NotPresent)
    } else if m[key].kind != kind {
        Err(TableError::WrongType)
    } else {
        Ok(m[key].value)
    }
}

/// `found` is what looking up the key of `pair` gives, paired with the
/// pair's companion: the value stored there, or `NotPresent`.
pub open spec fn entry_lookup_pair<V, T>(m: TableView<V>, pair: (u32, T), found: (Result<&V, TableError>, T)) -> bool {
    &&& found.1 == pair.1
    &&& match found.0 {
        Ok(v) => m.contains_key(pair.0) && *v == m[pair.0].value,
        Err(e) => !m.contains_key(pair.0) && e == TableError::NotPresent,
    }
}

/// What deleting `key` as a resource of `kind` yields.
pub open spec fn deletion<V>(m: TableView<V>, key: u32, kind: ResourceKind) -> Result<V, TableError> {
    if !m.contains_key(key) {
        Err(TableError::NotPresent)
    } else if !m[key].children.is_empty() {
        Err(TableError::HasChildren)
    } else if m[key].kind != kind {
        Err(TableError::WrongType)
    } else {
        Ok(m[key].value)
    }
}

/// The `i`-th key probed when searching for a free key from `start`, wrapping
/// around at `u32::MAX`.
pub open spec fn probe(start: u32, i: int) -> u32 {
    if start + i <= u32::MAX {
        (start + i) as u32
    } else {
        (start + i - 0x1_0000_0000) as u32
    }
}

/// `key` is the first key, searching upward from `start` with wrap-around,
/// that `m` does not use.
pub open spec fn first_free_key<V>(m: TableView<V>, start: u32, key: u32) -> bool {
    exists|d: int|
        #![trigger probe(start, d)]
        0 <= d <= u32::MAX && key == probe(start, d) && !m.contains_key(key) && forall|j: int|
            0 <= j < d ==> m.contains_key(#[trigger] probe(start, j))
}

/// Wraps `HashMap::get_mut`: a mutable reference to the value stored at `k`,
/// if any. After the borrow ends the map holds the reference's final value
/// at `k`, and is otherwise unchanged.
#[verifier::external_body]
fn map_get_mut<'a, E>(m: &'a mut HashMap<u32, E>, k: u32) -> (r: Option<&'a mut E>)
    ensures
        match r {
            Some(e) => {
                &&& old(m)@.contains_key(k)
                &&& *e == old(m)@[k]
                &&& final(m)@ == old(m)@.insert(k, *final(e))
            },
            None => {
                &&& !old(m)@.contains_key(k)
                &&& final(m)@ == old(m)@
            },
        },
{
    m.get_mut(&k)
}

spec fn entries_view<V>(hm: Map<u32, TableEntry<V>>) -> TableView<V> {
    hm.map_values(|e: TableEntry<V>| e.view())
}

/// Replacing the stored value of an existing entry keeps the table well
/// formed, and changes its view only at that entry's value.
proof fn lemma_entry_update<V>(hm: Map<u32, TableEntry<V>>, key: u32)
    requires
        view_wf(entries_view(hm)),
        hm.contains_key(key),
    ensures
        forall|e2: TableEntry<V>|
            e2.kind == hm[key].kind && e2.parent == hm[key].parent && e2.children@ == hm[key].children@
                ==> {
                &&& #[trigger] entries_view(hm.insert(key, e2)) == entries_view(hm).insert(
                    key,
                    with_value(entries_view(hm)[key], e2.entry),
                )
                &&& view_wf(entries_view(hm.insert(key, e2)))
            },
{
    let m = entries_view(hm);
    lemma_value_update_keeps_wf(m, key);
    assert forall|e2: TableEntry<V>|
        e2.kind == hm[key].kind && e2.parent == hm[key].parent && e2.children@ == hm[key].children@
            implies #[trigger] entries_view(hm.insert(key, e2)) == m.insert(key, with_value(m[key], e2.entry))
        && view_wf(entries_view(hm.insert(key, e2))) by {
        assert(entries_view(hm.insert(key, e2)) =~= m.insert(key, with_value(m[key], e2.entry)));
    }
}

/// The `Table` type maps u32 handles to resources.
pub struct Table<V> {
    map: HashMap<u32, TableEntry<V>>,
    next_key: u32,
}

impl<V> View for Table<V> {
    type V = TableView<V>;

    closed spec fn view(&self) -> TableView<V> {
        entries_view(self.map@)
    }
}

/// The probed keys are pairwise distinct for fewer than 2^32 probes.
proof fn lemma_probe_distinct(start: u32, i: int, j: int)
    requires
        0 <= i < j <= u32::MAX,
    ensures
        probe(start, i) != probe(start, j),
{
}

/// If the first `n` probes all hit used keys of `dom`, then `dom` has at
/// least `n` keys.
proof fn lemma_probes_bound(dom: Set<u32>, start: u32, n: int)
    requires
        dom.finite(),
        0 <= n <= 0x1_0000_0000,
        forall|j: int| 0 <= j < n ==> dom.contains(#[trigger] probe(start, j)),
    ensures
        n <= dom.len(),
{
    let s = Seq::new(n as nat, |j: int| probe(start, j));
    assert(s.no_duplicates()) by {
        assert forall|a: int, b: int| 0 <= a < s.len() && 0 <= b < s.len() && a != b implies s[a]
            != s[b] by {
            if a < b {
                lemma_probe_distinct(start, a, b);
            } else {
                lemma_probe_distinct(start, b, a);
            }
        }
    }
    s.unique_seq_to_set();
    assert(s.to_set().subset_of(dom)) by {
        assert forall|x: u32| s.to_set().contains(x) implies dom.contains(x) by {
            let j = choose|j: int| 0 <= j < s.len() && s[j] == x;
            assert(s[j] == probe(start, j));
        }
    }
    vstd::set_lib::lemma_len_subset(s.to_set(), dom);
}

impl<V> Table<V> {
    /// The key that the next insertion starts searching from.
    pub closed spec fn next_key_spec(&self) -> u32 {
        self.next_key
    }

    /// The table's invariant: the parent/child links are consistent.
    pub closed spec fn wf(&self) -> bool {
        view_wf(self@)
    }

    /// A well-formed table's contents have consistent parent and child
    /// links and at most `u32::MAX` entries, so the laws over table views
    /// apply to it.
    pub proof fn lemma_wf_view(&self)
        requires
            self.wf(),
        ensures
            view_wf(self@),
            links_consistent(self@),
            self@.dom().finite(),
            self@.len() <= u32::MAX,
    {
    }

    proof fn lemma_view_len(&self)
        ensures
            self@.dom() == self.map@.dom(),
            self@.dom().finite(),
            self.map.len() == self@.len(),
            self.map@.len() == self@.len(),
    {
        assert(self@.dom() =~= self.map@.dom());
    }

    /// Create an empty table.
    ///
    /// Keys 0, 1 and 2 were formerly used for stdio; to keep users from
    /// assuming they still refer to it, they are left free at first.
    pub fn new() -> (t: Self)
        ensures
            t.wf(),
            t@ == Map::<u32, EntryView<V>>::empty(),
            t.next_key_spec() == 3,
    {
        let t = Table { map: HashMap::new(), next_key: 3 };
        assert(t@ =~= Map::<u32, EntryView<V>>::empty());
        t
    }

    /// Insert a resource of `kind` at the next available index.
    pub fn push(&mut self, kind: ResourceKind, entry: V) -> (r: Result<u32, TableError>)
        requires
            old(self).wf(),
        ensures
            final(self).wf(),
            r is Ok <==> old(self)@.len() < u32::MAX,
            match r {
                Ok(key) => {
                    &&& first_free_key(old(self)@, old(self).next_key_spec(), key)
                    &&& final(self)@ == after_insert(old(self)@, key, kind, entry, None)
                    &&& final(self).next_key_spec() == key.wrapping_add(1)
                },
                Err(e) => {
                    &&& e == TableError::Full
                    &&& final(self)@ == old(self)@
                    &&& final(self).next_key_spec() == old(self).next_key_spec()
                },
            },
    {
        let ghost m0 = self@;
        let r = self.push_(TableEntry::new(kind, entry, None));
        proof {
            if let Ok(key) = r {
                old(self).lemma_view_len();
                lemma_insert_keeps_links(m0, key, kind, entry, None);
            }
        }
        r
    }

    /// Same as `push`, but returns an owning handle.
    pub fn push_resource(&mut self, kind: ResourceKind, entry: V) -> (r: Result<Resource, TableError>)
        requires
            old(self).wf(),
        ensures
            final(self).wf(),
            r is Ok <==> old(self)@.len() < u32::MAX,
            match r {
                Ok(res) => {
                    &&& res.owned_spec()
                    &&& res.kind_spec() == kind
                    &&& first_free_key(old(self)@, old(self).next_key_spec(), res.rep_spec())
                    &&& final(self)@ == after_insert(old(self)@, res.rep_spec(), kind, entry, None)
                    &&& final(self).next_key_spec() == res.rep_spec().wrapping_add(1)
                },
                Err(e) => {
                    &&& e == TableError::Full
                    &&& final(self)@ == old(self)@
                    &&& final(self).next_key_spec() == old(self).next_key_spec()
                },
            },
    {
        match self.push(kind, entry) {
            Ok(idx) => Ok(Resource::new_own(idx, kind)),
            Err(e) => Err(e),
        }
    }

    /// Insert a resource at the next available index, and track that it has a
    /// parent resource.
    ///
    /// The parent must exist to create a child. All children resources must
    /// be destroyed before a parent can be destroyed; otherwise
    /// [`Table::delete`] fails with [`TableError::HasChildren`].
    pub fn push_child(&mut self, kind: ResourceKind, entry: V, parent: u32) -> (r: Result<u32, TableError>)
        requires
            old(self).wf(),
        ensures
            final(self).wf(),
            r is Ok <==> old(self)@.contains_key(parent) && old(self)@.len() < u32::MAX,
            match r {
                Ok(key) => {
                    &&& first_free_key(old(self)@, old(self).next_key_spec(), key)
                    &&& final(self)@ == after_insert(old(self)@, key, kind, entry, Some(parent))
                    &&& final(self).next_key_spec() == key.wrapping_add(1)
                },
                Err(e) => {
                    &&& e == (if !old(self)@.contains_key(parent) { TableError::NotPresent } else { TableError::Full })
                    &&& final(self)@ == old(self)@
                    &&& final(self).next_key_spec() == old(self).next_key_spec()
                },
            },
    {
        if !self.contains_key(parent) {
            return Err(TableError::NotPresent);
        }
        let ghost m0 = self@;
        proof {
            self.lemma_view_len();
        }
        let child = match self.push_(TableEntry::new(kind, entry, Some(parent))) {
            Ok(child) => child,
            Err(e) => return Err(e),
        };
        let ghost m1 = self@;
        match map_get_mut(&mut self.map, parent) {
            Some(pe) => {
                pe.add_child(child);
            },
            None => {
                proof {
                    assert(self@.dom() =~= self.map@.dom());
                    assert(false);
                }
            },
        }
        proof {
            assert(self@ =~= after_insert(m0, child, kind, entry, Some(parent)));
            lemma_insert_keeps_links(m0, child, kind, entry, Some(parent));
        }
        Ok(child)
    }

    /// Same as `push_child`, but typed handles.
    pub fn push_child_resource(&mut self, kind: ResourceKind, entry: V, parent: &Resource) -> (r: Result<
        Resource,
        TableError,
    >)
        requires
            old(self).wf(),
        ensures
            final(self).wf(),
            r is Ok <==> old(self)@.contains_key(parent.rep_spec()) && old(self)@.len() < u32::MAX,
            match r {
                Ok(res) => {
                    &&& res.owned_spec()
                    &&& res.kind_spec() == kind
                    &&& first_free_key(old(self)@, old(self).next_key_spec(), res.rep_spec())
                    &&& final(self)@ == after_insert(old(self)@, res.rep_spec(), kind, entry, Some(parent.rep_spec()))
                    &&& final(self).next_key_spec() == res.rep_spec().wrapping_add(1)
                },
                Err(e) => {
                    &&& e == (if !old(self)@.contains_key(parent.rep_spec()) { TableError::NotPresent } else { TableError::Full })
                    &&& final(self)@ == old(self)@
                    &&& final(self).next_key_spec() == old(self).next_key_spec()
                },
            },
    {
        match self.push_child(kind, entry, parent.rep()) {
            Ok(idx) => Ok(Resource::new_own(idx, kind)),
            Err(e) => Err(e),
        }
    }

    /// Check if the table has a resource at the given index.
    pub fn contains_key(&self, key: u32) -> (r: bool)
        ensures
            r == self@.contains_key(key),
    {
        proof {
            self.lemma_view_len();
        }
        self.map.contains_key(&key)
    }

    /// Check if the resource at a given index is of the given kind.
    pub fn is(&self, key: u32, kind: ResourceKind) -> (r: bool)
        ensures
            r == (self@.contains_key(key) && self@[key].kind == kind),
    {
        match self.map.get(&key) {
            Some(e) => e.kind == kind,
            None => false,
        }
    }

    /// Get a mutable reference to the value at an entry, whatever its kind.
    pub fn get_any_mut(&mut self, key: u32) -> (r: Result<&mut V, TableError>)
        requires
            old(self).wf(),
        ensures
            final(self).wf(),
            final(self).next_key_spec() == old(self).next_key_spec(),
            match r {
                Ok(v) => {
                    &&& old(self)@.contains_key(key)
                    &&& *v == old(self)@[key].value
                    &&& final(self)@ == old(self)@.insert(key, with_value(old(self)@[key], *final(v)))
                },
                Err(e) => {
                    &&& e == TableError::NotPresent
                    &&& !old(self)@.contains_key(key)
                    &&& final(self)@ == old(self)@
                },
            },
    {
        proof {
            if self@.contains_key(key) {
                lemma_entry_update(self.map@, key);
            }
        }
        let r = match map_get_mut(&mut self.map, key) {
            Some(e) => Ok(&mut e.entry),
            None => Err(TableError::NotPresent),
        };
        r
    }

    /// Get a reference to the resource of `kind` at the given index.
    pub fn get(&self, key: u32, kind: ResourceKind) -> (r: Result<&V, TableError>)
        ensures
            match r {
                Ok(v) => lookup(self@, key, kind) == Ok::<V, TableError>(*v),
                Err(e) => lookup(self@, key, kind) == Err::<V, TableError>(e),
            },
    {
        match self.map.get(&key) {
            Some(e) => {
                if e.kind == kind {
                    Ok(&e.entry)
                } else {
                    Err(TableError::WrongType)
                }
            },
            None => Err(TableError::NotPresent),
        }
    }

    /// The value stored at `key`, whatever its kind, or `NotPresent`.
    fn get_any(&self, key: u32) -> (r: Result<&V, TableError>)
        ensures
            match r {
                Ok(v) => self@.contains_key(key) && *v == self@[key].value,
                Err(e) => !self@.contains_key(key) && e == TableError::NotPresent,
            },
    {
        match self.map.get(&key) {
            Some(e) => Ok(&e.entry),
            None => Err(TableError::NotPresent),
        }
    }

    /// Looks up the key of each pair of `map`, in order, and pairs the
    /// stored value (whatever its kind), or `NotPresent` where the table
    /// has no entry there, with the pair's companion value.
    pub fn iter_entries<T>(&self, map: Vec<(u32, T)>) -> (r: Vec<(Result<&V, TableError>, T)>)
        ensures
            r@.len() == map@.len(),
            forall|i: int| 0 <= i < r@.len() ==> #[trigger] entry_lookup_pair(self@, map@[i], r@[i]),
    {
        let ghost m0 = map@;
        let mut rest = map;
        let mut out: Vec<(Result<&V, TableError>, T)> = Vec::new();
        while rest.len() > 0
            invariant
                out@.len() + rest@.len() == m0.len(),
                rest@ == m0.skip(out@.len() as int),
                forall|i: int| 0 <= i < out@.len() ==> #[trigger] entry_lookup_pair(self@, m0[i], out@[i]),
            decreases rest@.len(),
        {
            let ghost k = out@.len() as int;
            let ghost out0 = out@;
            let (key, companion) = rest.remove(0);
            assert(m0[k] == (key, companion));
            let item = self.get_any(key);
            out.push((item, companion));
            proof {
                assert(rest@ =~= m0.skip(k + 1));
                assert(entry_lookup_pair(self@, m0[k], out@[k]));
                assert forall|i: int| 0 <= i < out@.len() implies #[trigger] entry_lookup_pair(
                    self@,
                    m0[i],
                    out@[i],
                ) by {
                    if i < k {
                        assert(out@[i] == out0[i]);
                    }
                }
            }
        }
        out
    }

    /// Get a mutable reference to the resource of `kind` at the given index.
    pub fn get_mut(&mut self, key: u32, kind: ResourceKind) -> (r: Result<&mut V, TableError>)
        requires
            old(self).wf(),
        ensures
            final(self).wf(),
            final(self).next_key_spec() == old(self).next_key_spec(),
            match r {
                Ok(v) => {
                    &&& lookup(old(self)@, key, kind) == Ok::<V, TableError>(*v)
                    &&& final(self)@ == old(self)@.insert(key, with_value(old(self)@[key], *final(v)))
                },
                Err(e) => {
                    &&& lookup(old(self)@, key, kind) == Err::<V, TableError>(e)
                    &&& final(self)@ == old(self)@
                },
            },
    {
        proof {
            if self@.contains_key(key) {
                lemma_entry_update(self.map@, key);
            }
        }
        match map_get_mut(&mut self.map, key) {
            Some(e) => {
                if e.kind == kind {
                    Ok(&mut e.entry)
                } else {
                    Err(TableError::WrongType)
                }
            },
            None => Err(TableError::NotPresent),
        }
    }

    /// Get a mutable reference to the value at an entry, whatever its kind.
    pub fn get_as_any_mut(&mut self, key: u32) -> (r: Result<&mut V, TableError>)
        requires
            old(self).wf(),
        ensures
            final(self).wf(),
            final(self).next_key_spec() == old(self).next_key_spec(),
            match r {
                Ok(v) => {
                    &&& old(self)@.contains_key(key)
                    &&& *v == old(self)@[key].value
                    &&& final(self)@ == old(self)@.insert(key, with_value(old(self)@[key], *final(v)))
                },
                Err(e) => {
                    &&& e == TableError::NotPresent
                    &&& !old(self)@.contains_key(key)
                    &&& final(self)@ == old(self)@
                },
            },
    {
        proof {
            if self@.contains_key(key) {
                lemma_entry_update(self.map@, key);
            }
        }
        match map_get_mut(&mut self.map, key) {
            Some(e) => Ok(&mut e.entry),
            None => Err(TableError::NotPresent),
        }
    }

    /// Same as `get`, but with a typed handle.
    pub fn get_resource(&self, key: &Resource) -> (r: Result<&V, TableError>)
        ensures
            match r {
                Ok(v) => lookup(self@, key.rep_spec(), key.kind_spec()) == Ok::<V, TableError>(*v),
                Err(e) => lookup(self@, key.rep_spec(), key.kind_spec()) == Err::<V, TableError>(e),
            },
    {
        self.get(key.rep(), key.kind())
    }

    /// Same as `get_mut`, but with a typed handle.
    pub fn get_resource_mut(&mut self, key: &Resource) -> (r: Result<&mut V, TableError>)
        requires
            old(self).wf(),
        ensures
            final(self).wf(),
            final(self).next_key_spec() == old(self).next_key_spec(),
            match r {
                Ok(v) => {
                    &&& lookup(old(self)@, key.rep_spec(), key.kind_spec()) == Ok::<V, TableError>(*v)
                    &&& final(self)@ == old(self)@.insert(
                        key.rep_spec(),
                        with_value(old(self)@[key.rep_spec()], *final(v)),
                    )
                },
                Err(e) => {
                    &&& lookup(old(self)@, key.rep_spec(), key.kind_spec()) == Err::<V, TableError>(e)
                    &&& final(self)@ == old(self)@
                },
            },
    {
        self.get_mut(key.rep(), key.kind())
    }

    /// Remove the entry at `key` unless it is missing or has children.
    fn delete_entry(&mut self, key: u32) -> (r: Result<TableEntry<V>, TableError>)
        requires
            old(self).wf(),
        ensures
            final(self).wf(),
            final(self).next_key == old(self).next_key,
            match r {
                Ok(e) => {
                    &&& old(self)@.contains_key(key)
                    &&& old(self)@[key].children.is_empty()
                    &&& e.view() == old(self)@[key]
                    &&& final(self)@ == after_remove(old(self)@, key)
                },
                Err(err) => {
                    &&& err == (if !old(self)@.contains_key(key) { TableError::NotPresent } else { TableError::HasChildren })
                    &&& old(self)@.contains_key(key) ==> !old(self)@[key].children.is_empty()
                    &&& final(self)@ == old(self)@
                },
            },
    {
        match self.map.get(&key) {
            None => return Err(TableError::NotPresent),
            Some(e) => {
                if !e.children.is_empty() {
                    return Err(TableError::HasChildren);
                }
            },
        }
        let ghost m0 = self@;
        let e = self.map.remove(&key).unwrap();
        if let Some(parent) = e.parent {
            proof {
                assert(m0[key].parent == Some(parent));
                assert(m0.contains_key(parent) && m0[parent].children.contains(key));
                assert(parent != key);
                assert(self@.dom() =~= m0.dom().remove(key));
            }
            match map_get_mut(&mut self.map, parent) {
                Some(pe) => pe.remove_child(key),
                None => {
                    proof {
                        assert(false);
                    }
                },
            }
        }
        proof {
            assert(self@ =~= after_remove(m0, key));
            lemma_remove_keeps_links(m0, key);
        }
        Ok(e)
    }

    /// Remove the resource of `kind` at a given index from the table.
    ///
    /// If this method fails, the resource remains in the table. It fails
    /// with [`TableError::HasChildren`] if the resource has any live
    /// children.
    pub fn delete(&mut self, key: u32, kind: ResourceKind) -> (r: Result<V, TableError>)
        requires
            old(self).wf(),
        ensures
            final(self).wf(),
            final(self).next_key_spec() == old(self).next_key_spec(),
            r == deletion(old(self)@, key, kind),
            r is Ok ==> final(self)@ == after_remove(old(self)@, key),
            r is Err ==> final(self)@ == old(self)@,
    {
        let ghost m0 = self@;
        let e = match self.delete_entry(key) {
            Ok(e) => e,
            Err(err) => return Err(err),
        };
        if e.kind == kind {
            Ok(e.entry)
        } else {
            let ghost m1 = self@;
            if let Some(parent) = e.parent {
                match map_get_mut(&mut self.map, parent) {
                    Some(pe) => pe.add_child(key),
                    None => {
                        proof {
                            assert(m1.dom() =~= self.map@.dom());
                            assert(false);
                        }
                    },
                }
            }
            let ghost m2 = self@;
            proof {
                assert(m1 == after_remove(m0, key));
                if let Some(p) = m0[key].parent {
                    assert(m0.contains_key(p) && m0[p].children.contains(key));
                    assert(p != key);
                    assert(m1[p].children == m0[p].children.remove(key));
                    assert(m2[p].children == m1[p].children.insert(key));
                    assert(m0[p].children.remove(key).insert(key) =~= m0[p].children);
                    assert(m2[p] == m0[p]);
                    assert(m2.dom() =~= m1.dom());
                    assert forall|k: u32| k != p && m2.contains_key(k) implies m2[k] == m1[k] by {}
                } else {
                    assert(m2 == m1);
                }
                assert(m2 =~= m0.remove(key));
            }
            let TableEntry { kind: k, entry, parent, children } = e;
            self.map.insert(key, TableEntry { kind: k, entry, children, parent });
            proof {
                if let Some(p) = m0[key].parent {
                    assert(m0[p].children.remove(key).insert(key) =~= m0[p].children);
                    assert(self@[p] == m0[p]);
                }
                assert(self@ =~= m2.insert(key, m0[key]));
                assert(self@ =~= m0);
            }
            Err(TableError::WrongType)
        }
    }

    /// Same as `delete`, but with an owning typed handle.
    pub fn delete_resource(&mut self, resource: Resource) -> (r: Result<V, TableError>)
        requires
            old(self).wf(),
            resource.owned_spec(),
        ensures
            final(self).wf(),
            final(self).next_key_spec() == old(self).next_key_spec(),
            r == deletion(old(self)@, resource.rep_spec(), resource.kind_spec()),
            r is Ok ==> final(self)@ == after_remove(old(self)@, resource.rep_spec()),
            r is Err ==> final(self)@ == old(self)@,
    {
        self.delete(resource.rep(), resource.kind())
    }
}

/// Removing a childless entry and unlinking it from its parent keeps the
/// table well formed.
proof fn lemma_remove_keeps_links<V>(m: TableView<V>, key: u32)
    requires
        view_wf(m),
        m.contains_key(key),
        m[key].children.is_empty(),
    ensures
        view_wf(after_remove(m, key)),
{
    let m2 = after_remove(m, key);
    assert(m2.dom() =~= m.dom().remove(key));
    assert forall|k: u32, p: u32| m2.contains_key(k) && m2[k].parent == Some(p) implies m2.contains_key(p)
        && m2[p].children.contains(k) by {
        assert(m[k].parent == Some(p));
        if p == key {
            assert(m[key].children.contains(k));
        }
    }
    assert forall|k: u32, c: u32| m2.contains_key(k) && m2[k].children.contains(c) implies m2.contains_key(c)
        && m2[c].parent == Some(k) by {
        assert(m[k].children.contains(c));
    }
    vstd::set_lib::lemma_len_subset(m2.dom(), m.dom());
}

/// Inserting a fresh entry at an unused key, under an existing parent if any,
/// keeps the parent/child links consistent.
proof fn lemma_insert_keeps_links<V>(
    m: TableView<V>,
    key: u32,
    kind: ResourceKind,
    value: V,
    parent: Option<u32>,
)
    requires
        view_wf(m),
        m.len() < u32::MAX,
        !m.contains_key(key),
        parent matches Some(p) ==> m.contains_key(p),
    ensures
        view_wf(after_insert(m, key, kind, value, parent)),
{
    let m2 = after_insert(m, key, kind, value, parent);
    assert(m2.dom() =~= m.dom().insert(key));
    assert forall|k: u32, p: u32| m2.contains_key(k) && m2[k].parent == Some(p) implies m2.contains_key(p)
        && m2[p].children.contains(k) by {
        if k != key {
            assert(m[k].parent == Some(p));
        }
    }
    assert forall|k: u32, c: u32| m2.contains_key(k) && m2[k].children.contains(c) implies m2.contains_key(c)
        && m2[c].parent == Some(k) by {
        if c != key {
            assert(m.contains_key(k) && m[k].children.contains(c));
        }
    }
}

/// Replacing the value of an existing entry keeps the table well formed.
proof fn lemma_value_update_keeps_wf<V>(m: TableView<V>, key: u32)
    requires
        view_wf(m),
        m.contains_key(key),
    ensures
        forall|v: V| #[trigger] view_wf(m.insert(key, with_value(m[key], v))),
{
    assert forall|v: V| #[trigger] view_wf(m.insert(key, with_value(m[key], v))) by {
        let m2 = m.insert(key, with_value(m[key], v));
        assert(m2.dom() =~= m.dom());
        assert forall|k: u32, p: u32| m2.contains_key(k) && m2[k].parent == Some(p) implies m2.contains_key(p)
            && m2[p].children.contains(k) by {
            assert(m[k].parent == Some(p));
        }
        assert forall|k: u32, c: u32| m2.contains_key(k) && m2[k].children.contains(c) implies m2.contains_key(c)
            && m2[c].parent == Some(k) by {
            assert(m[k].children.contains(c));
        }
    }
}

impl<V> Table<V> {
    /// Insert an entry at the first free key at or after `next_key`.
    fn push_(&mut self, e: TableEntry<V>) -> (r: Result<u32, TableError>)
        requires
            old(self)@.len() <= u32::MAX,
        ensures
            old(self)@.len() == u32::MAX ==> r == Err::<u32, TableError>(TableError::Full) && final(self)@ == old(self)@
                && final(self).next_key == old(self).next_key,
            old(self)@.len() != u32::MAX ==> r is Ok,
            r matches Ok(key) ==> {
                &&& first_free_key(old(self)@, old(self).next_key, key)
                &&& final(self)@ == old(self)@.insert(key, e.view())
                &&& final(self).next_key == key.wrapping_add(1)
            },
    {
        proof {
            self.lemma_view_len();
        }
        if self.map.len() == u32::MAX as usize {
            return Err(TableError::Full);
        }
        let ghost start = self.next_key;
        let ghost m0 = self@;
        let ghost mut i: int = 0;
        loop
            invariant
                self.map@ == old(self).map@,
                m0 == old(self)@,
                start == old(self).next_key,
                m0.len() < u32::MAX,
                m0.dom().finite(),
                0 <= i <= m0.len(),
                self.next_key == probe(start, i),
                forall|j: int| 0 <= j < i ==> m0.contains_key(#[trigger] probe(start, j)),
            decreases m0.len() - i,
        {
            let key = self.next_key;
            self.next_key = self.next_key.wrapping_add(1);
            proof {
                assert(self.next_key == probe(start, i + 1));
            }
            if self.map.contains_key(&key) {
                proof {
                    assert(m0.contains_key(key));
                    lemma_probes_bound(m0.dom(), start, i + 1);
                    i = i + 1;
                }
                continue;
            }
            proof {
                assert(!m0.contains_key(key));
                assert(first_free_key(m0, start, key)) by {
                    assert(key == probe(start, i));
                }
            }
            self.map.insert(key, e);
            proof {
                assert(self@ =~= m0.insert(key, e.view()));
            }
            return Ok(key);
        }
    }
}

impl<V> Default for Table<V> {
    fn default() -> (t: Self)
        ensures
            t.wf(),
            t@ == Map::<u32, EntryView<V>>::empty(),
            t.next_key_spec() == 3,
    {
        Table::new()
    }
}

/// A value pushed at `key` is what a lookup of `key` with the same kind
/// yields.
pub proof fn law_get_after_push<V>(
    m: TableView<V>,
    key: u32,
    kind: ResourceKind,
    value: V,
    parent: Option<u32>,
)
    requires
        !m.contains_key(key),
        parent matches Some(p) ==> m.contains_key(p),
    ensures
        lookup(after_insert(m, key, kind, value, parent), key, kind) == Ok::<V, TableError>(value),
{
}

/// Pushing a resource touches no other entry but the parent's child list.
pub proof fn law_push_leaves_others<V>(
    m: TableView<V>,
    key: u32,
    kind: ResourceKind,
    value: V,
    parent: Option<u32>,
    other: u32,
)
    requires
        other != key,
        parent != Some(other),
    ensures
        after_insert(m, key, kind, value, parent).contains_key(other) == m.contains_key(other),
        m.contains_key(other) ==> after_insert(m, key, kind, value, parent)[other] == m[other],
{
}

/// Deleting a freshly pushed resource succeeds, yields the pushed value and
/// restores the table to what it was before the push.
pub proof fn law_delete_undoes_push<V>(
    m: TableView<V>,
    key: u32,
    kind: ResourceKind,
    value: V,
    parent: Option<u32>,
)
    requires
        view_wf(m),
        !m.contains_key(key),
        parent matches Some(p) ==> m.contains_key(p),
    ensures
        deletion(after_insert(m, key, kind, value, parent), key, kind) == Ok::<V, TableError>(value),
        after_remove(after_insert(m, key, kind, value, parent), key) == m,
{
    let m2 = after_insert(m, key, kind, value, parent);
    if let Some(p) = parent {
        assert(p != key);
        assert(!m[p].children.contains(key));
        assert(m[p].children.insert(key).remove(key) =~= m[p].children);
        assert(m2[key].children =~= Set::<u32>::empty());
    }
    assert(after_remove(m2, key) =~= m);
}

/// A resource that some live entry names as its parent cannot be deleted:
/// the deletion fails with `HasChildren`, whatever kind it is asked for.
pub proof fn law_parent_outlives_children<V>(m: TableView<V>, key: u32, child: u32, kind: ResourceKind)
    requires
        view_wf(m),
        m.contains_key(child),
        m[child].parent == Some(key),
    ensures
        deletion(m, key, kind) == Err::<V, TableError>(TableError::HasChildren),
{
    assert(m.contains_key(key) && m[key].children.contains(child));
}

/// A new table hands out key 3 first: keys 0 to 2 are left free.
pub proof fn law_new_table_first_key<V>(key: u32)
    requires
        first_free_key(Map::<u32, EntryView<V>>::empty(), 3, key),
    ensures
        key == 3,
{
    let d = choose|d: int|
        #![trigger probe(3, d)]
        0 <= d <= u32::MAX && key == probe(3, d) && !Map::<u32, EntryView<V>>::empty().contains_key(key)
            && forall|j: int| 0 <= j < d ==> Map::<u32, EntryView<V>>::empty().contains_key(#[trigger] probe(3, j));
    if d > 0 {
        assert(Map::<u32, EntryView<V>>::empty().contains_key(probe(3, 0)));
    }
}

} // verus!
