//! The function types of a core wasm module, deduplicated and indexed by
//! signature index.

use std::collections::HashMap;
use vstd::prelude::*;

verus! {

broadcast use vstd::std_specs::hash::group_hash_axioms;

/// The value types of wasm.
#[derive(Debug, Clone, Copy, PartialEq, Eq, Structural)]
pub enum WasmType {
    I32,
    I64,
    F32,
    F64,
    V128,
    FuncRef,
    ExternRef,
    ContRef,
}

/// A wasm function type: its parameter and result types.
#[derive(Debug)]
pub struct WasmFuncType {
    pub params: Vec<WasmType>,
    pub returns: Vec<WasmType>,
}

impl View for WasmFuncType {
    type V = (Seq<WasmType>, Seq<WasmType>);

    open spec fn view(&self) -> (Seq<WasmType>, Seq<WasmType>) {
        (self.params@, self.returns@)
    }
}

fn same_types(a: &Vec<WasmType>, b: &Vec<WasmType>) -> (r: bool)
    ensures
        r == (a@ == b@),
{
    if a.len() != b.len() {
        return false;
    }
    let mut i: usize = 0;
    while i < a.len()
        invariant
            a@.len() == b@.len(),
            i <= a@.len(),
            forall|j: int| 0 <= j < i ==> a@[j] == b@[j],
        decreases a@.len() - i,
    {
        if a[i] != b[i] {
            return false;
        }
        i = i + 1;
    }
    assert(a@ =~= b@);
    true
}

impl WasmFuncType {
    /// Whether `self` and `other` are the same function type.
    pub fn same_as(&self, other: &WasmFuncType) -> (r: bool)
        ensures
            r == (self@ == other@),
    {
        same_types(&self.params, &other.params) && same_types(&self.returns, &other.returns)
    }
}

/// A continuation type: the function type it suspends, by signature index.
#[derive(Debug, Clone, Copy, PartialEq, Eq, Structural)]
pub struct WasmContType(pub u32);

impl WasmContType {
    /// The signature index of the function type.
    pub fn signature_index(self) -> (r: u32)
        ensures
            r == self.0,
    {
        self.0
    }
}

/// The signatures as abstract function types, in index order.
pub open spec fn signature_views(s: Seq<WasmFuncType>) -> Seq<(Seq<WasmType>, Seq<WasmType>)> {
    s.map_values(|f: WasmFuncType| f@)
}

/// All types used in a core wasm module. Function types are deduplicated.
pub struct ModuleTypes {
    wasm_signatures: Vec<WasmFuncType>,
}

impl View for ModuleTypes {
    type V = Seq<(Seq<WasmType>, Seq<WasmType>)>;

    closed spec fn view(&self) -> Seq<(Seq<WasmType>, Seq<WasmType>)> {
        signature_views(self.wasm_signatures@)
    }
}

impl ModuleTypes {
    /// No signatures.
    pub fn new() -> (r: ModuleTypes)
        ensures
            r@ == Seq::<(Seq<WasmType>, Seq<WasmType>)>::empty(),
    {
        let r = ModuleTypes { wasm_signatures: Vec::new() };
        assert(r@ =~= Seq::<(Seq<WasmType>, Seq<WasmType>)>::empty());
        r
    }

    /// All the wasm function signatures of this module; the one at position
    /// `i` has signature index `i`.
    pub fn wasm_signatures(&self) -> (r: &[WasmFuncType])
        ensures
            signature_views(r@) == self@,
    {
        self.wasm_signatures.as_slice()
    }

    /// Number of signatures.
    pub fn len(&self) -> (r: usize)
        ensures
            r == self@.len(),
    {
        self.wasm_signatures.len()
    }

    /// The function type with signature index `sig`.
    pub fn index(&self, sig: u32) -> (r: &WasmFuncType)
        requires
            sig < self@.len(),
        ensures
            r@ == self@[sig as int],
    {
        &self.wasm_signatures[sig as usize]
    }
}

/// No function type occurs twice.
pub open spec fn no_duplicate_types(s: Seq<(Seq<WasmType>, Seq<WasmType>)>) -> bool {
    forall|i: int, j: int| 0 <= i < s.len() && 0 <= j < s.len() && i != j ==> s[i] != s[j]
}

/// The index of the first occurrence of `t` in `s`, if any.
pub open spec fn find_type(s: Seq<(Seq<WasmType>, Seq<WasmType>)>, t: (Seq<WasmType>, Seq<WasmType>)) -> Option<
    int,
> {
    if exists|i: int| 0 <= i < s.len() && s[i] == t {
        Some(choose|i: int| 0 <= i < s.len() && s[i] == t)
    } else {
        None
    }
}

/// A builder for [`ModuleTypes`].
pub struct ModuleTypesBuilder {
    types: ModuleTypes,
    interned_cont_types: HashMap<u32, u32>,
    wasmparser_to_wasmtime: HashMap<u32, u32>,
}

impl ModuleTypesBuilder {
    /// The signatures interned so far.
    pub closed spec fn signatures(&self) -> Seq<(Seq<WasmType>, Seq<WasmType>)> {
        self.types@
    }

    /// The signature index assigned to each parser type id.
    pub closed spec fn type_ids(&self) -> Map<u32, u32> {
        self.wasmparser_to_wasmtime@
    }

    /// The signature index interned for each continuation type.
    pub closed spec fn cont_types(&self) -> Map<u32, u32> {
        self.interned_cont_types@
    }

    /// Function types are deduplicated.
    pub closed spec fn wf(&self) -> bool {
        no_duplicate_types(self.types@)
    }

    /// An empty builder.
    pub fn new() -> (r: ModuleTypesBuilder)
        ensures
            r.wf(),
            r.signatures() == Seq::<(Seq<WasmType>, Seq<WasmType>)>::empty(),
            r.type_ids() == Map::<u32, u32>::empty(),
            r.cont_types() == Map::<u32, u32>::empty(),
    {
        ModuleTypesBuilder {
            types: ModuleTypes::new(),
            interned_cont_types: HashMap::new(),
            wasmparser_to_wasmtime: HashMap::new(),
        }
    }

    /// Reserves space for `amt` more signatures.
    pub fn reserve_wasm_signatures(&mut self, amt: usize)
        ensures
            final(self).signatures() == old(self).signatures(),
            final(self).type_ids() == old(self).type_ids(),
            final(self).cont_types() == old(self).cont_types(),
            final(self).wf() == old(self).wf(),
    {
        self.types.wasm_signatures.reserve(amt);
    }

    /// The index of `sig`, appending it if it is new.
    fn intern_func_type(&mut self, sig: WasmFuncType) -> (idx: u32)
        requires
            old(self).wf(),
            old(self).signatures().len() < u32::MAX,
        ensures
            final(self).wf(),
            final(self).type_ids() == old(self).type_ids(),
            final(self).cont_types() == old(self).cont_types(),
            match find_type(old(self).signatures(), sig@) {
                Some(i) => idx == i && final(self).signatures() == old(self).signatures(),
                None => idx == old(self).signatures().len() && final(self).signatures() == old(
                    self,
                ).signatures().push(sig@),
            },
    {
        let n = self.types.wasm_signatures.len();
        let mut i: usize = 0;
        while i < n
            invariant
                n == self.types.wasm_signatures@.len(),
                i <= n,
                forall|j: int| 0 <= j < i ==> self.types@[j] != sig@,
                self.types@.len() == n,
                forall|j: int| 0 <= j < n ==> self.types@[j] == #[trigger] self.types.wasm_signatures@[j]@,
                no_duplicate_types(self.types@),
                self.types@ == old(self).types@,
                n < u32::MAX,
                self.wasmparser_to_wasmtime@ == old(self).wasmparser_to_wasmtime@,
                self.interned_cont_types@ == old(self).interned_cont_types@,
            decreases n - i,
        {
            if self.types.wasm_signatures[i].same_as(&sig) {
                proof {
                    let s = self.types@;
                    assert(exists|k: int| 0 <= k < s.len() && s[k] == sig@);
                    let k = choose|k: int| 0 <= k < s.len() && s[k] == sig@;
                    assert(k == i as int);
                }
                return i as u32;
            }
            i = i + 1;
        }
        let ghost old_types = self.types@;
        self.types.wasm_signatures.push(sig);
        proof {
            assert(self.types@ =~= old_types.push(sig@));
            assert(!(exists|k: int| 0 <= k < old_types.len() && old_types[k] == sig@));
        }
        n as u32
    }

    /// Interns the function type `sig` for the parser's type `id` and
    /// returns its signature index, which recovers `sig` from the result
    /// of [`ModuleTypesBuilder::finish`].
    pub fn wasm_func_type(&mut self, id: u32, sig: WasmFuncType) -> (idx: u32)
        requires
            old(self).wf(),
            old(self).signatures().len() < u32::MAX,
        ensures
            final(self).wf(),
            final(self).cont_types() == old(self).cont_types(),
            final(self).type_ids() == old(self).type_ids().insert(id, idx),
            match find_type(old(self).signatures(), sig@) {
                Some(i) => idx == i && final(self).signatures() == old(self).signatures(),
                None => idx == old(self).signatures().len() && final(self).signatures() == old(
                    self,
                ).signatures().push(sig@),
            },
    {
        let idx = self.intern_func_type(sig);
        self.wasmparser_to_wasmtime.insert(id, idx);
        idx
    }

    fn intern_cont_type(&mut self, sig: WasmContType) -> (idx: u32)
        ensures
            final(self).signatures() == old(self).signatures(),
            final(self).type_ids() == old(self).type_ids(),
            final(self).wf() == old(self).wf(),
            old(self).cont_types().contains_key(sig.0) ==> idx == old(self).cont_types()[sig.0]
                && final(self).cont_types() == old(self).cont_types(),
            !old(self).cont_types().contains_key(sig.0) ==> idx == sig.0 && final(self).cont_types()
                == old(self).cont_types().insert(sig.0, sig.0),
    {
        match self.interned_cont_types.get(&sig.0) {
            Some(idx) => return *idx,
            None => {},
        }
        let idx = sig.signature_index();
        self.interned_cont_types.insert(sig.0, idx);
        idx
    }

    /// The signature index for the continuation type `sig` of the parser's
    /// type `id`.
    pub fn wasm_cont_type(&mut self, id: u32, sig: WasmContType) -> (idx: u32)
        ensures
            final(self).signatures() == old(self).signatures(),
            final(self).wf() == old(self).wf(),
            final(self).type_ids() == old(self).type_ids().insert(id, idx),
            old(self).cont_types().contains_key(sig.0) ==> idx == old(self).cont_types()[sig.0]
                && final(self).cont_types() == old(self).cont_types(),
            !old(self).cont_types().contains_key(sig.0) ==> idx == sig.0 && final(self).cont_types()
                == old(self).cont_types().insert(sig.0, sig.0),
    {
        let idx = self.intern_cont_type(sig);
        self.wasmparser_to_wasmtime.insert(id, idx);
        idx
    }

    /// The signature index recorded for the parser's type `id`.
    pub fn lookup_type_id(&self, id: u32) -> (r: u32)
        requires
            self.type_ids().contains_key(id),
        ensures
            r == self.type_ids()[id],
    {
        *self.wasmparser_to_wasmtime.get(&id).unwrap()
    }

    /// The resulting types.
    pub fn finish(self) -> (r: ModuleTypes)
        ensures
            r@ == self.signatures(),
    {
        self.types
    }

    /// All the wasm function signatures interned so far.
    pub fn wasm_signatures(&self) -> (r: &[WasmFuncType])
        ensures
            signature_views(r@) == self.signatures(),
    {
        self.types.wasm_signatures()
    }

    /// The function type with signature index `sig`.
    pub fn index(&self, sig: u32) -> (r: &WasmFuncType)
        requires
            sig < self.signatures().len(),
        ensures
            r@ == self.signatures()[sig as int],
    {
        self.types.index(sig)
    }
}

/// Interning the same function type twice yields the same signature index,
/// and interning never changes which type an index stands for.
pub proof fn law_interning_is_stable(
    s: Seq<(Seq<WasmType>, Seq<WasmType>)>,
    t: (Seq<WasmType>, Seq<WasmType>),
)
    requires
        no_duplicate_types(s),
    ensures
        ({
            let s2 = if find_type(s, t) is Some { s } else { s.push(t) };
            let i1 = match find_type(s, t) {
                Some(i) => i,
                None => s.len() as int,
            };
            &&& find_type(s2, t) == Some(i1)
            &&& s2[i1] == t
            &&& no_duplicate_types(s2)
            &&& forall|j: int| 0 <= j < s.len() ==> s2[j] == s[j]
        }),
{
    let s2 = if find_type(s, t) is Some { s } else { s.push(t) };
    let i1 = match find_type(s, t) {
        Some(i) => i,
        None => s.len() as int,
    };
    assert(s2[i1] == t);
    assert(exists|i: int| 0 <= i < s2.len() && s2[i] == t);
    let k = choose|i: int| 0 <= i < s2.len() && s2[i] == t;
    assert(k == i1);
}

/// The signatures after interning the function types `ts`, in order,
/// into the signatures `s` (see [`ModuleTypesBuilder::wasm_func_type`]).
pub open spec fn intern_all(
    s: Seq<(Seq<WasmType>, Seq<WasmType>)>,
    ts: Seq<(Seq<WasmType>, Seq<WasmType>)>,
) -> Seq<(Seq<WasmType>, Seq<WasmType>)>
    decreases ts.len(),
{
    if ts.len() == 0 {
        s
    } else {
        let s1 = intern_all(s, ts.drop_last());
        if find_type(s1, ts.last()) is Some {
            s1
        } else {
            s1.push(ts.last())
        }
    }
}

/// In signatures without duplicates, the index of a type is its position.
proof fn lemma_find_unique(s: Seq<(Seq<WasmType>, Seq<WasmType>)>, t: (Seq<WasmType>, Seq<WasmType>), i: int)
    requires
        no_duplicate_types(s),
        0 <= i < s.len(),
        s[i] == t,
    ensures
        find_type(s, t) == Some(i),
{
    assert(exists|k: int| 0 <= k < s.len() && s[k] == t);
    let k = choose|k: int| 0 <= k < s.len() && s[k] == t;
    assert(k == i);
}

/// Interning a sequence keeps the signatures free of duplicates, keeps the
/// earlier ones in place, and adds exactly the new types.
proof fn lemma_intern_all(s: Seq<(Seq<WasmType>, Seq<WasmType>)>, ts: Seq<(Seq<WasmType>, Seq<WasmType>)>)
    requires
        no_duplicate_types(s),
    ensures
        no_duplicate_types(intern_all(s, ts)),
        intern_all(s, ts).len() >= s.len(),
        forall|j: int| 0 <= j < s.len() ==> intern_all(s, ts)[j] == s[j],
        forall|t: (Seq<WasmType>, Seq<WasmType>)| #[trigger]
            intern_all(s, ts).contains(t) <==> s.contains(t) || ts.contains(t),
    decreases ts.len(),
{
    if ts.len() > 0 {
        let s1 = intern_all(s, ts.drop_last());
        let t = ts.last();
        lemma_intern_all(s, ts.drop_last());
        law_interning_is_stable(s1, t);
        let f = intern_all(s, ts);
        assert forall|x: (Seq<WasmType>, Seq<WasmType>)| #[trigger] f.contains(x) <==> s.contains(x) || ts.contains(x) by {
            if f.contains(x) {
                let k = choose|k: int| 0 <= k < f.len() && f[k] == x;
                if k < s1.len() {
                    assert(s1.contains(x));
                    if ts.drop_last().contains(x) {
                        let q = choose|q: int| 0 <= q < ts.drop_last().len() && ts.drop_last()[q] == x;
                        assert(ts[q] == x);
                    }
                } else {
                    assert(x == t);
                    assert(ts[ts.len() - 1] == x);
                }
            }
            if ts.contains(x) && !s.contains(x) {
                let q = choose|q: int| 0 <= q < ts.len() && ts[q] == x;
                if q < ts.len() - 1 {
                    assert(ts.drop_last()[q] == x);
                    assert(s1.contains(x));
                    let k = choose|k: int| 0 <= k < s1.len() && s1[k] == x;
                    assert(f[k] == x);
                } else {
                    let i1 = match find_type(s1, t) {
                        Some(i) => i,
                        None => s1.len() as int,
                    };
                    assert(f[i1] == x);
                }
            }
            if s.contains(x) {
                let k = choose|k: int| 0 <= k < s.len() && s[k] == x;
                assert(f[k] == x);
            }
        }
    }
}

/// Interning a prefix of a sequence gives a prefix of the signatures that
/// interning the whole sequence gives.
proof fn lemma_intern_prefix(
    s: Seq<(Seq<WasmType>, Seq<WasmType>)>,
    ts: Seq<(Seq<WasmType>, Seq<WasmType>)>,
    m: int,
)
    requires
        no_duplicate_types(s),
        0 <= m <= ts.len(),
    ensures
        intern_all(s, ts.take(m)).len() <= intern_all(s, ts).len(),
        forall|j: int| 0 <= j < intern_all(s, ts.take(m)).len() ==> intern_all(s, ts)[j] == intern_all(s, ts.take(m))[j],
    decreases ts.len(),
{
    if m == ts.len() {
        assert(ts.take(m) =~= ts);
    } else {
        let d = ts.drop_last();
        assert(d.take(m) =~= ts.take(m));
        lemma_intern_prefix(s, d, m);
    }
}

/// Interning function types one after the other (and then finishing, which
/// hands over the signatures unchanged) deduplicates them: the signatures
/// hold no type twice, keep the ones there before, and are exactly those
/// plus the interned types; the index returned for each interned type is
/// where that type stands at the end, so equal types get equal indices.
pub proof fn law_interning_many(s: Seq<(Seq<WasmType>, Seq<WasmType>)>, ts: Seq<(Seq<WasmType>, Seq<WasmType>)>)
    requires
        no_duplicate_types(s),
    ensures
        no_duplicate_types(intern_all(s, ts)),
        forall|j: int| 0 <= j < s.len() ==> intern_all(s, ts)[j] == s[j],
        forall|t: (Seq<WasmType>, Seq<WasmType>)| #[trigger]
            intern_all(s, ts).contains(t) <==> s.contains(t) || ts.contains(t),
        forall|i: int|
            0 <= i < ts.len() ==> {
                let idx = find_type(intern_all(s, ts.take(i)), ts[i]);
                let returned = match idx {
                    Some(k) => k,
                    None => intern_all(s, ts.take(i)).len() as int,
                };
                &&& find_type(intern_all(s, ts), #[trigger] ts[i]) == Some(returned)
                &&& intern_all(s, ts)[returned] == ts[i]
            },
{
    lemma_intern_all(s, ts);
    let f = intern_all(s, ts);
    assert forall|i: int| 0 <= i < ts.len() implies {
        let idx = find_type(intern_all(s, ts.take(i)), ts[i]);
        let returned = match idx {
            Some(k) => k,
            None => intern_all(s, ts.take(i)).len() as int,
        };
        &&& find_type(f, #[trigger] ts[i]) == Some(returned)
        &&& f[returned] == ts[i]
    } by {
        let pre = intern_all(s, ts.take(i));
        let t = ts[i];
        lemma_intern_all(s, ts.take(i));
        law_interning_is_stable(pre, t);
        assert(ts.take(i + 1).drop_last() =~= ts.take(i));
        assert(ts.take(i + 1).last() == t);
        let after = intern_all(s, ts.take(i + 1));
        let returned = match find_type(pre, t) {
            Some(k) => k,
            None => pre.len() as int,
        };
        assert(after[returned] == t);
        lemma_intern_prefix(s, ts, i + 1);
        assert(f[returned] == t);
        lemma_find_unique(f, t, returned);
    }
}

/// The signature index that interning `ts[i]` returns, the types before it
/// having been interned into `s`: the index of an equal signature, or the
/// next free one.
pub open spec fn returned_index(
    s: Seq<(Seq<WasmType>, Seq<WasmType>)>,
    ts: Seq<(Seq<WasmType>, Seq<WasmType>)>,
    i: int,
) -> int {
    match find_type(intern_all(s, ts.take(i)), ts[i]) {
        Some(k) => k,
        None => intern_all(s, ts.take(i)).len() as int,
    }
}

/// A new builder that interns the function types `ts` (one
/// [`ModuleTypesBuilder::wasm_func_type`] call each) and is finished gives
/// signatures, in index order, that hold no type twice and are exactly the
/// types of `ts`; the index returned for each type is where it stands, so
/// equal types got equal indices and distinct ones distinct indices.
pub proof fn law_wasm_signatures(ts: Seq<(Seq<WasmType>, Seq<WasmType>)>)
    ensures
        ({
            let e = Seq::<(Seq<WasmType>, Seq<WasmType>)>::empty();
            let f = intern_all(e, ts);
            &&& no_duplicate_types(f)
            &&& forall|t: (Seq<WasmType>, Seq<WasmType>)| #[trigger] f.contains(t) <==> ts.contains(t)
            &&& forall|i: int|
                0 <= i < ts.len() ==> 0 <= #[trigger] returned_index(e, ts, i) < f.len() && f[returned_index(
                    e,
                    ts,
                    i,
                )] == ts[i]
            &&& forall|i: int, j: int|
                0 <= i < ts.len() && 0 <= j < ts.len() ==> (#[trigger] returned_index(e, ts, i) == #[trigger] returned_index(
                    e,
                    ts,
                    j,
                ) <==> ts[i] == ts[j])
        }),
{
    let e = Seq::<(Seq<WasmType>, Seq<WasmType>)>::empty();
    law_interning_many(e, ts);
    let f = intern_all(e, ts);
    assert forall|t: (Seq<WasmType>, Seq<WasmType>)| #[trigger] f.contains(t) <==> ts.contains(t) by {
        assert(!e.contains(t));
    }
    assert forall|i: int| 0 <= i < ts.len() implies 0 <= #[trigger] returned_index(e, ts, i) < f.len()
        && f[returned_index(e, ts, i)] == ts[i] by {
        assert(find_type(f, ts[i]) == Some(returned_index(e, ts, i)));
        assert(f.contains(ts[i]));
        let k = choose|k: int| 0 <= k < f.len() && f[k] == ts[i];
        lemma_find_unique(f, ts[i], k);
    }
    assert forall|i: int, j: int| 0 <= i < ts.len() && 0 <= j < ts.len() implies (#[trigger] returned_index(
        e,
        ts,
        i,
    ) == #[trigger] returned_index(e, ts, j) <==> ts[i] == ts[j]) by {
        assert(find_type(f, ts[i]) == Some(returned_index(e, ts, i)));
        assert(find_type(f, ts[j]) == Some(returned_index(e, ts, j)));
        assert(f.contains(ts[i]));
        let k = choose|k: int| 0 <= k < f.len() && f[k] == ts[i];
        lemma_find_unique(f, ts[i], k);
        assert(f.contains(ts[j]));
        let l = choose|l: int| 0 <= l < f.len() && f[l] == ts[j];
        lemma_find_unique(f, ts[j], l);
    }
}

} // verus!
