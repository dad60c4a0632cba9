//! A store of objects addressed by ids that are handed out in increasing
//! order and never reused.

use vstd::prelude::*;

verus! {

/// Objects kept in an [`ObjectStore`] are created in a default state first.
pub trait ObjectDefault: Sized {
    fn default() -> Self;
}

/// The elements `entries[i]` for which `keep[i]` is true, in order.
pub open spec fn select<A>(entries: Seq<A>, keep: Seq<bool>) -> Seq<A>
    decreases entries.len(),
{
    if entries.len() == 0 {
        Seq::empty()
    } else {
        let rest = select(entries.drop_last(), keep.drop_last());
        if keep.last() {
            rest.push(entries.last())
        } else {
            rest
        }
    }
}

/// The contents of the `Some` entries of `outs`, in order.
pub open spec fn somes<U>(outs: Seq<Option<U>>) -> Seq<U>
    decreases outs.len(),
{
    if outs.len() == 0 {
        Seq::empty()
    } else {
        let rest = somes(outs.drop_last());
        match outs.last() {
            Some(u) => rest.push(u),
            None => rest,
        }
    }
}

/// A kept element is added at the end; a dropped one adds nothing.
pub proof fn lemma_select_push<A>(entries: Seq<A>, keep: Seq<bool>, x: A, k: bool)
    ensures
        k ==> select(entries.push(x), keep.push(k)) == select(entries, keep).push(x),
        !k ==> select(entries.push(x), keep.push(k)) == select(entries, keep),
{
    assert(entries.push(x).drop_last() =~= entries);
    assert(keep.push(k).drop_last() =~= keep);
}

/// A `Some` answer adds its value at the end; a `None` answer adds nothing.
pub proof fn lemma_somes_push<U>(outs: Seq<Option<U>>, o: Option<U>)
    ensures
        o is Some ==> somes(outs.push(o)) == somes(outs).push(o->0),
        o is None ==> somes(outs.push(o)) == somes(outs),
{
    assert(outs.push(o).drop_last() =~= outs);
}

/// When every answer is `Some`, all their values come out, in order.
pub proof fn lemma_somes_all<U>(outs: Seq<Option<U>>)
    requires
        forall|j: int| 0 <= j < outs.len() ==> #[trigger] outs[j] is Some,
    ensures
        somes(outs).len() == outs.len(),
        forall|j: int| 0 <= j < outs.len() ==> #[trigger] somes(outs)[j] == outs[j]->0,
    decreases outs.len(),
{
    if outs.len() > 0 {
        let o0 = outs.drop_last();
        lemma_somes_all(o0);
        assert forall|j: int| 0 <= j < outs.len() implies #[trigger] somes(outs)[j] == outs[j]->0 by {
            if j < o0.len() {
                assert(somes(o0)[j] == o0[j]->0);
            }
        }
    }
}

/// The number of values is the number of `Some` answers, and no answer ever
/// adds more than one value.
pub proof fn lemma_somes_len<U>(outs: Seq<Option<U>>)
    ensures
        somes(outs).len() == outs.filter(|o: Option<U>| o is Some).len(),
        somes(outs).len() <= outs.len(),
    decreases outs.len(),
{
    reveal_with_fuel(Seq::filter, 1);
    if outs.len() > 0 {
        lemma_somes_len(outs.drop_last());
    }
}

/// The values are those of the `Some` answers, in order.
pub proof fn lemma_somes_filter<U>(outs: Seq<Option<U>>)
    ensures
        somes(outs) == outs.filter(|o: Option<U>| o is Some).map_values(|o: Option<U>| o->0),
    decreases outs.len(),
{
    reveal_with_fuel(Seq::filter, 1);
    if outs.len() > 0 {
        let o0 = outs.drop_last();
        lemma_somes_filter(o0);
        let f0 = o0.filter(|o: Option<U>| o is Some);
        let f = outs.filter(|o: Option<U>| o is Some);
        if outs.last() is Some {
            assert(f == f0.push(outs.last()));
            assert(f.map_values(|o: Option<U>| o->0) =~= f0.map_values(|o: Option<U>| o->0).push(
                outs.last()->0,
            ));
        } else {
            assert(f == f0);
        }
    }
}

/// The flags of `remove` negated.
pub open spec fn negate(remove: Seq<bool>) -> Seq<bool> {
    Seq::new(remove.len(), |i: int| !remove[i])
}

/// The mathematical contents of an object store: the next id it hands out
/// and its objects in insertion order, each with its id.
pub struct StoreView<T> {
    pub next_id: usize,
    pub entries: Seq<(usize, T)>,
}

impl<T> StoreView<T> {
    /// The ids in storage order.
    pub open spec fn ids(self) -> Seq<usize> {
        self.entries.map_values(|e: (usize, T)| e.0)
    }

    /// The number of objects.
    pub open spec fn len(self) -> nat {
        self.entries.len()
    }

    /// Some object is stored under `id`.
    pub open spec fn contains(self, id: usize) -> bool {
        exists|i: int| 0 <= i < self.entries.len() && #[trigger] self.entries[i].0 == id
    }

    /// The position in storage order of the object stored under `id`.
    pub open spec fn index_of(self, id: usize) -> int {
        choose|i: int| 0 <= i < self.entries.len() && #[trigger] self.entries[i].0 == id
    }

    /// The object stored under `id`.
    pub open spec fn lookup(self, id: usize) -> T {
        self.entries[self.index_of(id)].1
    }

    /// Ids are strictly increasing in storage order and all below `next_id`.
    pub open spec fn wf(self) -> bool {
        &&& forall|i: int, j: int|
            0 <= i < j < self.entries.len() ==> #[trigger] self.entries[i].0
                < #[trigger] self.entries[j].0
        &&& forall|i: int| 0 <= i < self.entries.len() ==> #[trigger] self.entries[i].0 < self.next_id
    }

    /// The store after a new object `value` got the next id.
    pub open spec fn create(self, value: T) -> StoreView<T> {
        StoreView {
            next_id: (self.next_id + 1) as usize,
            entries: self.entries.push((self.next_id, value)),
        }
    }

    /// The store with the object under `id` replaced by `value`.
    pub open spec fn update(self, id: usize, value: T) -> StoreView<T> {
        StoreView {
            next_id: self.next_id,
            entries: self.entries.update(self.index_of(id), (id, value)),
        }
    }

    /// The store without the objects whose id is in `ids`, order kept.
    pub open spec fn remove_ids(self, ids: Seq<usize>) -> StoreView<T> {
        self.retain(Seq::new(self.entries.len(), |i: int| !ids.contains(self.entries[i].0)))
    }

    /// The store keeping the `i`-th object exactly when `keep[i]` holds.
    pub open spec fn retain(self, keep: Seq<bool>) -> StoreView<T> {
        StoreView { next_id: self.next_id, entries: select(self.entries, keep) }
    }
}

/// In a well-formed store an id is found at exactly one index.
pub proof fn lemma_index_of<T>(v: StoreView<T>, i: int)
    requires
        v.wf(),
        0 <= i < v.entries.len(),
    ensures
        v.contains(v.entries[i].0),
        v.index_of(v.entries[i].0) == i,
        v.lookup(v.entries[i].0) == v.entries[i].1,
{
    let id = v.entries[i].0;
    assert(v.contains(id));
    let k = v.index_of(id);
    if k < i {
        assert(v.entries[k].0 < v.entries[i].0);
    } else if k > i {
        assert(v.entries[i].0 < v.entries[k].0);
    }
}

/// `x` is an element of `entries` whose flag in `keep` is set.
pub open spec fn flagged_in<A>(entries: Seq<A>, keep: Seq<bool>, x: A) -> bool {
    exists|i: int| 0 <= i < entries.len() && keep[i] && #[trigger] entries[i] == x
}

/// `select` keeps exactly the flagged elements: every kept element is a
/// flagged element of `entries`, and every flagged element is kept.
pub proof fn lemma_select_members<A>(entries: Seq<A>, keep: Seq<bool>)
    requires
        keep.len() == entries.len(),
    ensures
        select(entries, keep).len() <= entries.len(),
        forall|a: int|
            0 <= a < select(entries, keep).len() ==> #[trigger] flagged_in(
                entries,
                keep,
                select(entries, keep)[a],
            ),
        forall|i: int|
            0 <= i < entries.len() && #[trigger] keep[i] ==> select(entries, keep).contains(
                entries[i],
            ),
    decreases entries.len(),
{
    if entries.len() > 0 {
        let s0 = entries.drop_last();
        let k0 = keep.drop_last();
        lemma_select_members(s0, k0);
        let sel = select(entries, keep);
        let sel0 = select(s0, k0);
        assert forall|a: int|
            0 <= a < select(entries, keep).len() implies #[trigger] flagged_in(
                entries,
                keep,
                select(entries, keep)[a],
            ) by {
            if a < sel0.len() {
                assert(sel[a] == sel0[a]);
                assert(flagged_in(s0, k0, sel0[a]));
                let i = choose|i: int| 0 <= i < s0.len() && k0[i] && #[trigger] s0[i] == sel0[a];
                assert(entries[i] == s0[i]);
            } else {
                assert(entries[entries.len() - 1] == sel[a]);
            }
        }
        assert forall|i: int| 0 <= i < entries.len() && #[trigger] keep[i] implies sel.contains(
            entries[i],
        ) by {
            if i < entries.len() - 1 {
                assert(k0[i] == keep[i]);
                assert(sel0.contains(s0[i]));
                let a = choose|a: int| 0 <= a < sel0.len() && sel0[a] == s0[i];
                assert(sel[a] == sel0[a]);
            } else {
                assert(sel[sel.len() - 1] == entries[i]);
            }
        }
    } else {
        assert(select(entries, keep).len() == 0);
    }
}

/// `select` on entries with strictly increasing ids keeps them strictly
/// increasing and below any bound that held for all of them.
pub proof fn lemma_select_ordered<T>(entries: Seq<(usize, T)>, keep: Seq<bool>, bound: usize)
    requires
        keep.len() == entries.len(),
        forall|i: int, j: int|
            0 <= i < j < entries.len() ==> #[trigger] entries[i].0 < #[trigger] entries[j].0,
        forall|i: int| 0 <= i < entries.len() ==> #[trigger] entries[i].0 < bound,
    ensures
        forall|a: int, b: int|
            0 <= a < b < select(entries, keep).len() ==> #[trigger] select(entries, keep)[a].0
                < #[trigger] select(entries, keep)[b].0,
        forall|a: int|
            0 <= a < select(entries, keep).len() ==> #[trigger] select(entries, keep)[a].0 < bound,
{
    lemma_select_members(entries, keep);
    let sel = select(entries, keep);
    assert forall|a: int| 0 <= a < sel.len() implies #[trigger] sel[a].0 < bound by {
        assert(flagged_in(entries, keep, sel[a]));
        let i = choose|i: int| 0 <= i < entries.len() && keep[i] && #[trigger] entries[i] == sel[a];
    }
    lemma_select_ordered_rec(entries, keep);
}

proof fn lemma_select_ordered_rec<T>(entries: Seq<(usize, T)>, keep: Seq<bool>)
    requires
        keep.len() == entries.len(),
        forall|i: int, j: int|
            0 <= i < j < entries.len() ==> #[trigger] entries[i].0 < #[trigger] entries[j].0,
    ensures
        forall|a: int, b: int|
            0 <= a < b < select(entries, keep).len() ==> #[trigger] select(entries, keep)[a].0
                < #[trigger] select(entries, keep)[b].0,
    decreases entries.len(),
{
    if entries.len() > 0 {
        let s0 = entries.drop_last();
        let k0 = keep.drop_last();
        lemma_select_ordered_rec(s0, k0);
        lemma_select_members(s0, k0);
        let sel = select(entries, keep);
        let sel0 = select(s0, k0);
        assert forall|a: int, b: int| 0 <= a < b < sel.len() implies #[trigger] sel[a].0
            < #[trigger] sel[b].0 by {
            if b < sel0.len() {
                assert(sel[a] == sel0[a] && sel[b] == sel0[b]);
            } else {
                assert(sel[a] == sel0[a]);
                assert(flagged_in(s0, k0, sel0[a]));
                let i = choose|i: int| 0 <= i < s0.len() && k0[i] && #[trigger] s0[i] == sel0[a];
                assert(entries[i] == s0[i]);
                assert(entries[i].0 < entries[entries.len() - 1].0);
            }
        }
    }
}

/// Retaining a flagged part of a well-formed store gives a well-formed store
/// that holds exactly the flagged ids, with their objects, under the same
/// next id.
pub proof fn lemma_retain<T>(v: StoreView<T>, keep: Seq<bool>)
    requires
        v.wf(),
        keep.len() == v.len(),
    ensures
        v.retain(keep).wf(),
        v.retain(keep).next_id == v.next_id,
        forall|id: usize|
            #[trigger] v.retain(keep).contains(id) <==> (v.contains(id) && keep[v.index_of(id)]),
        forall|id: usize|
            #[trigger] v.retain(keep).contains(id) ==> v.retain(keep).lookup(id) == v.lookup(id),
{
    let r = v.retain(keep);
    lemma_select_members(v.entries, keep);
    lemma_select_ordered(v.entries, keep, v.next_id);
    assert forall|id: usize| #[trigger] r.contains(id) implies v.contains(id) && keep[v.index_of(
        id,
    )] && r.lookup(id) == v.lookup(id) by {
        let a = choose|a: int| 0 <= a < r.entries.len() && #[trigger] r.entries[a].0 == id;
        assert(flagged_in(v.entries, keep, r.entries[a]));
        let i = choose|i: int|
            0 <= i < v.entries.len() && keep[i] && #[trigger] v.entries[i] == r.entries[a];
        lemma_index_of(v, i);
        lemma_index_of(r, a);
    }
    assert forall|id: usize| v.contains(id) && keep[v.index_of(id)] implies #[trigger] r.contains(
        id,
    ) by {
        let i = v.index_of(id);
        assert(r.entries.contains(v.entries[i]));
        let a = choose|a: int| 0 <= a < r.entries.len() && r.entries[a] == v.entries[i];
        assert(r.entries[a].0 == id);
    }
}

/// A created object gets an id that no object in the store has; it is
/// found under that id afterwards, the count grows by one, and every other
/// object is still found under its id.
pub proof fn lemma_create<T>(v: StoreView<T>, value: T)
    requires
        v.wf(),
        v.next_id < usize::MAX,
    ensures
        !v.contains(v.next_id),
        v.create(value).wf(),
        v.create(value).contains(v.next_id),
        v.create(value).lookup(v.next_id) == value,
        v.create(value).len() == v.len() + 1,
        v.create(value).next_id > v.next_id,
        forall|id: usize|
            #[trigger] v.contains(id) ==> v.create(value).contains(id) && v.create(value).lookup(id)
                == v.lookup(id),
{
    let c = v.create(value);
    if v.contains(v.next_id) {
        let i = choose|i: int| 0 <= i < v.entries.len() && #[trigger] v.entries[i].0 == v.next_id;
        assert(v.entries[i].0 < v.next_id);
    }
    assert(c.wf());
    lemma_index_of(c, v.entries.len() as int);
    assert forall|id: usize| #[trigger] v.contains(id) implies c.contains(id) && c.lookup(id)
        == v.lookup(id) by {
        let i = v.index_of(id);
        lemma_index_of(v, i);
        lemma_index_of(c, i);
    }
}

/// After an update the object under `id` is the new one, and the ids,
/// the next id and every other object are unchanged.
pub proof fn lemma_update<T>(v: StoreView<T>, id: usize, value: T)
    requires
        v.wf(),
        v.contains(id),
    ensures
        v.update(id, value).wf(),
        v.update(id, value).lookup(id) == value,
        v.update(id, value).ids() == v.ids(),
        v.update(id, value).next_id == v.next_id,
        forall|other: usize|
            #[trigger] v.update(id, value).contains(other) == v.contains(other),
        forall|other: usize|
            other != id && #[trigger] v.contains(other) ==> v.update(id, value).lookup(other)
                == v.lookup(other),
{
    let u = v.update(id, value);
    let k = v.index_of(id);
    assert(u.ids() =~= v.ids());
    assert forall|i: int| 0 <= i < u.entries.len() implies #[trigger] u.entries[i].0
        == v.entries[i].0 by {}
    lemma_index_of(u, k);
    assert forall|other: usize| #[trigger] u.contains(other) == v.contains(other) by {
        if v.contains(other) {
            let i = v.index_of(other);
            assert(u.entries[i].0 == other);
        }
        if u.contains(other) {
            let i = u.index_of(other);
            assert(v.entries[i].0 == other);
        }
    }
    assert forall|other: usize| other != id && #[trigger] v.contains(other) implies u.lookup(
        other,
    ) == v.lookup(other) by {
        let i = v.index_of(other);
        lemma_index_of(v, i);
        lemma_index_of(u, i);
    }
}

/// Garbage collection by ids keeps exactly the objects whose id is not
/// listed, each under its id, and leaves the next id unchanged.
pub proof fn lemma_remove_ids<T>(v: StoreView<T>, ids: Seq<usize>)
    requires
        v.wf(),
    ensures
        v.remove_ids(ids).wf(),
        v.remove_ids(ids).next_id == v.next_id,
        forall|id: usize|
            #[trigger] v.remove_ids(ids).contains(id) <==> (v.contains(id) && !ids.contains(id)),
        forall|id: usize|
            #[trigger] v.remove_ids(ids).contains(id) ==> v.remove_ids(ids).lookup(id) == v.lookup(
                id,
            ),
{
    let keep = Seq::new(v.entries.len(), |i: int| !ids.contains(v.entries[i].0));
    lemma_retain(v, keep);
    assert forall|id: usize| v.contains(id) implies keep[v.index_of(id)] == !ids.contains(id) by {
        let i = v.index_of(id);
        lemma_index_of(v, i);
    }
}

/// Ids are never reused. After creating an object and removing any
/// objects, the next id handed out differs from the one just handed out and
/// from every id the store held before.
pub proof fn lemma_ids_never_reused<T>(v: StoreView<T>, value: T, ids: Seq<usize>)
    requires
        v.wf(),
        v.next_id < usize::MAX,
    ensures
        v.create(value).remove_ids(ids).next_id != v.next_id,
        forall|id: usize| #[trigger] v.contains(id) ==> v.create(value).remove_ids(ids).next_id != id,
        !v.create(value).remove_ids(ids).contains(v.create(value).remove_ids(ids).next_id),
{
    lemma_create(v, value);
    lemma_remove_ids(v.create(value), ids);
    let w = v.create(value).remove_ids(ids);
    if w.contains(w.next_id) {
        let i = choose|i: int| 0 <= i < w.entries.len() && #[trigger] w.entries[i].0 == w.next_id;
        assert(w.entries[i].0 < w.next_id);
    }
}

/// Objects with their ids, ids strictly increasing.
pub struct ObjectStore<T> {
    id: usize,
    objects: Vec<(usize, T)>,
}

impl<T> View for ObjectStore<T> {
    type V = StoreView<T>;

    closed spec fn view(&self) -> StoreView<T> {
        StoreView { next_id: self.id, entries: self.objects@ }
    }
}

impl<T> ObjectStore<T> where T: ObjectDefault + Clone {
    /// An empty store whose first id is 0.
    pub fn new() -> (r: Self)
        ensures
            r@.next_id == 0,
            r@.entries == Seq::<(usize, T)>::empty(),
            r@.wf(),
    {
        ObjectStore { id: 0, objects: Vec::new() }
    }

    fn inc_id(&mut self)
        requires
            old(self)@.next_id < usize::MAX,
        ensures
            final(self)@.next_id == old(self)@.next_id + 1,
            final(self)@.entries == old(self)@.entries,
    {
        self.id = self.id + 1;
    }

    /// The id that the next created object gets.
    pub fn id(&self) -> (r: usize)
        ensures
            r == self@.next_id,
    {
        self.id
    }

    /// The number of objects in the store.
    pub fn len(&self) -> (r: usize)
        ensures
            r == self@.len(),
    {
        self.objects.len()
    }

    /// Whether an object is stored under `id`.
    pub fn contains(&self, id: usize) -> (r: bool)
        ensures
            r == self@.contains(id),
    {
        let mut idx: usize = 0;
        while idx < self.objects.len()
            invariant
                idx <= self.objects.len(),
                forall|j: int| 0 <= j < idx ==> #[trigger] self.objects@[j].0 != id,
            decreases self.objects.len() - idx,
        {
            if self.objects[idx].0 == id {
                assert(self@.entries[idx as int].0 == id);
                return true;
            }
            idx += 1;
        }
        false
    }

    /// Index in storage order of the object with `id`.
    fn id_to_index(&self, id: usize) -> (r: usize)
        requires
            self@.wf(),
            self@.contains(id),
        ensures
            r == self@.index_of(id),
            r < self@.len(),
            self@.entries[r as int].0 == id,
    {
        let mut idx: usize = 0;
        while idx < self.objects.len()
            invariant
                self@.wf(),
                self@.contains(id),
                idx <= self.objects.len(),
                forall|j: int| 0 <= j < idx ==> #[trigger] self.objects@[j].0 != id,
            decreases self.objects.len() - idx,
        {
            if self.objects[idx].0 == id {
                proof {
                    lemma_index_of(self@, idx as int);
                }
                return idx;
            }
            idx += 1;
        }
        proof {
            let k = choose|i: int| 0 <= i < self@.entries.len() && #[trigger] self@.entries[i].0 == id;
            assert(self.objects@[k].0 == id);
        }
        0
    }

    /// Appends `T::default()` under the next id and returns that id.
    pub fn create_object(&mut self) -> (r: usize)
        requires
            old(self)@.wf(),
            old(self)@.next_id < usize::MAX,
        ensures
            r == old(self)@.next_id,
            final(self)@ == old(self)@.create(final(self)@.entries.last().1),
            call_ensures(T::default, (), final(self)@.entries.last().1),
            final(self)@.wf(),
    {
        let entity_id = self.id;
        let d = T::default();
        self.objects.push((entity_id, d));
        self.inc_id();
        entity_id
    }

    /// Stores `object` under a new id and returns that id.
    pub fn insert_object(&mut self, object: T) -> (r: usize)
        requires
            old(self)@.wf(),
            old(self)@.next_id < usize::MAX,
        ensures
            r == old(self)@.next_id,
            final(self)@ == old(self)@.create(object),
            final(self)@.wf(),
    {
        let id = self.create_object();
        proof {
            lemma_index_of(self@, self@.entries.len() - 1);
        }
        self.update_object(id, object);
        assert(self@.entries =~= old(self)@.create(object).entries);
        id
    }

    /// A clone of the object stored under `id`.
    pub fn get_object(&self, id: usize) -> (r: T)
        requires
            self@.wf(),
            self@.contains(id),
        ensures
            cloned(self@.lookup(id), r),
    {
        let entity_index = self.id_to_index(id);
        self.objects[entity_index].1.clone()
    }

    /// A clone of the object stored under `id`.
    pub fn get_object_clone(&self, id: usize) -> (r: T)
        requires
            self@.wf(),
            self@.contains(id),
        ensures
            cloned(self@.lookup(id), r),
    {
        let entity_index = self.id_to_index(id);
        let ref_obj = &self.objects[entity_index].1;
        ref_obj.clone()
    }

    /// Replaces the object stored under `id` by `object`.
    pub fn update_object(&mut self, id: usize, object: T)
        requires
            old(self)@.wf(),
            old(self)@.contains(id),
        ensures
            final(self)@ == old(self)@.update(id, object),
            final(self)@.wf(),
    {
        let entity_index = self.id_to_index(id);
        self.objects.set(entity_index, (id, object));
    }
}

impl<T> ObjectStore<T> where T: ObjectDefault + Clone {
    /// Drops the `i`-th object exactly when `remove[i]` holds; the others
    /// keep their order.
    fn remove_flagged(&mut self, remove: &Vec<bool>)
        requires
            old(self)@.wf(),
            remove@.len() == old(self)@.len(),
        ensures
            final(self)@ == old(self)@.retain(negate(remove@)),
            final(self)@.wf(),
    {
        let ghost orig = self.objects@;
        let ghost keep = negate(remove@);
        let mut rest: Vec<(usize, T)> = Vec::new();
        std::mem::swap(&mut rest, &mut self.objects);
        let mut kept: Vec<(usize, T)> = Vec::new();
        let n = rest.len();
        let mut i: usize = 0;
        while i < n
            invariant
                n == orig.len(),
                remove@.len() == n,
                keep == negate(remove@),
                0 <= i <= n,
                self.id == old(self)@.next_id,
                old(self)@.entries == orig,
                old(self)@.wf(),
                rest@ == orig.subrange(i as int, n as int),
                kept@ == select(orig.take(i as int), keep.take(i as int)),
                forall|a: int, b: int|
                    0 <= a < b < kept@.len() ==> #[trigger] kept@[a].0 < #[trigger] kept@[b].0,
                forall|a: int, b: int|
                    0 <= a < kept@.len() && i <= b < n ==> #[trigger] kept@[a].0
                        < #[trigger] orig[b].0,
                forall|a: int| 0 <= a < kept@.len() ==> #[trigger] kept@[a].0 < self.id,
            decreases n - i,
        {
            let item = rest.remove(0);
            assert(item == orig[i as int]);
            if !remove[i] {
                kept.push(item);
            }
            proof {
                assert(orig.take(i + 1).drop_last() =~= orig.take(i as int));
                assert(keep.take(i + 1).drop_last() =~= keep.take(i as int));
                assert(rest@ =~= orig.subrange(i + 1, n as int));
            }
            i += 1;
        }
        proof {
            assert(orig.take(n as int) =~= orig);
            assert(keep.take(n as int) =~= keep);
        }
        self.objects = kept;
    }

    /// Whether `id` occurs in `ids`.
    fn contains_id(ids: &Vec<usize>, id: usize) -> (r: bool)
        ensures
            r == ids@.contains(id),
    {
        let mut i: usize = 0;
        while i < ids.len()
            invariant
                i <= ids.len(),
                forall|j: int| 0 <= j < i ==> ids@[j] != id,
            decreases ids.len() - i,
        {
            if ids[i] == id {
                assert(ids@[i as int] == id);
                return true;
            }
            i += 1;
        }
        false
    }

    /// Removes every object whose id is in `ids_to_remove`; the others keep
    /// their order.
    pub fn garbage_collect(&mut self, ids_to_remove: &Vec<usize>)
        requires
            old(self)@.wf(),
        ensures
            final(self)@ == old(self)@.remove_ids(ids_to_remove@),
            final(self)@.wf(),
    {
        let mut remove: Vec<bool> = Vec::new();
        let n = self.objects.len();
        let mut i: usize = 0;
        while i < n
            invariant
                n == self@.len(),
                i <= n,
                remove@.len() == i,
                forall|j: int| 0 <= j < i ==> remove@[j] == ids_to_remove@.contains(#[trigger] self@.entries[j].0),
            decreases n - i,
        {
            let r = Self::contains_id(ids_to_remove, self.objects[i].0);
            remove.push(r);
            i += 1;
        }
        let ghost keep = Seq::new(self@.entries.len(), |k: int| !ids_to_remove@.contains(self@.entries[k].0));
        assert(negate(remove@) =~= keep);
        self.remove_flagged(&remove);
    }
    /// Removes every object for which `filter` answers true; the others keep
    /// their order.
    pub fn garbage_collect_filter(&mut self, filter: impl Fn(&T) -> bool)
        requires
            old(self)@.wf(),
            forall|t: &T| call_requires(filter, (t,)),
        ensures
            final(self)@.wf(),
            exists|remove: Seq<bool>|
                {
                    &&& remove.len() == old(self)@.len()
                    &&& forall|j: int|
                        0 <= j < remove.len() ==> call_ensures(
                            filter,
                            (&old(self)@.entries[j].1,),
                            #[trigger] remove[j],
                        )
                    &&& final(self)@ == old(self)@.retain(negate(remove))
                },
    {
        let remove = self.decide_all(&filter);
        self.remove_flagged(&remove);
    }

    /// What `filter` answers on each object, in storage order.
    fn decide_all(&self, filter: &impl Fn(&T) -> bool) -> (r: Vec<bool>)
        requires
            forall|t: &T| call_requires(*filter, (t,)),
        ensures
            r@.len() == self@.len(),
            forall|j: int|
                0 <= j < r@.len() ==> call_ensures(*filter, (&self@.entries[j].1,), #[trigger] r@[j]),
    {
        let mut out: Vec<bool> = Vec::new();
        let n = self.objects.len();
        let mut i: usize = 0;
        while i < n
            invariant
                n == self@.len(),
                i <= n,
                out@.len() == i,
                forall|t: &T| call_requires(*filter, (t,)),
                forall|j: int|
                    0 <= j < i ==> call_ensures(*filter, (&self@.entries[j].1,), #[trigger] out@[j]),
            decreases n - i,
        {
            let b = filter(&self.objects[i].1);
            out.push(b);
            i += 1;
        }
        out
    }

    /// The ids of the objects for which `filter` answers true, in storage
    /// order.
    pub fn filter_ids(&self, filter: impl Fn(&T) -> bool) -> (r: Vec<usize>)
        requires
            forall|t: &T| call_requires(filter, (t,)),
        ensures
            exists|keep: Seq<bool>|
                {
                    &&& keep.len() == self@.len()
                    &&& forall|j: int|
                        0 <= j < keep.len() ==> call_ensures(
                            filter,
                            (&self@.entries[j].1,),
                            #[trigger] keep[j],
                        )
                    &&& r@ == select(self@.ids(), keep)
                },
    {
        let keep = self.decide_all(&filter);
        let mut out: Vec<usize> = Vec::new();
        let n = self.objects.len();
        let ghost ids = self@.ids();
        let mut i: usize = 0;
        while i < n
            invariant
                n == self@.len(),
                ids == self@.ids(),
                keep@.len() == n,
                i <= n,
                out@ == select(ids.take(i as int), keep@.take(i as int)),
            decreases n - i,
        {
            if keep[i] {
                out.push(self.objects[i].0);
            }
            proof {
                assert(ids.take(i + 1).drop_last() =~= ids.take(i as int));
                assert(keep@.take(i + 1).drop_last() =~= keep@.take(i as int));
            }
            i += 1;
        }
        proof {
            assert(ids.take(n as int) =~= ids);
            assert(keep@.take(n as int) =~= keep@);
        }
        out
    }

    /// The `Some` answers of `filter` on the objects, in storage order.
    pub fn filter_map<U>(&self, filter: impl Fn(&T) -> Option<U>) -> (r: Vec<U>)
        requires
            forall|t: &T| call_requires(filter, (t,)),
        ensures
            exists|outs: Seq<Option<U>>|
                {
                    &&& outs.len() == self@.len()
                    &&& forall|j: int|
                        0 <= j < outs.len() ==> call_ensures(
                            filter,
                            (&self@.entries[j].1,),
                            #[trigger] outs[j],
                        )
                    &&& r@ == somes(outs)
                    &&& r@ == outs.filter(|o: Option<U>| o is Some).map_values(|o: Option<U>| o->0)
                },
    {
        let mut out: Vec<U> = Vec::new();
        let ghost mut outs: Seq<Option<U>> = Seq::empty();
        let n = self.objects.len();
        let mut i: usize = 0;
        while i < n
            invariant
                n == self@.len(),
                i <= n,
                outs.len() == i,
                forall|t: &T| call_requires(filter, (t,)),
                forall|j: int|
                    0 <= j < i ==> call_ensures(filter, (&self@.entries[j].1,), #[trigger] outs[j]),
                out@ == somes(outs),
            decreases n - i,
        {
            let o = filter(&self.objects[i].1);
            let ghost og = o;
            let ghost prev = outs;
            proof {
                outs = outs.push(og);
                assert(outs.drop_last() =~= prev);
            }
            match o {
                Some(u) => {
                    out.push(u);
                },
                None => {},
            }

            i += 1;
        }
        proof {
            lemma_somes_filter(outs);
        }
        out
    }

    /// Replaces every object `o` with id `i` by `f(o, i)`, in storage order.
    pub fn for_each(&mut self, mut f: impl FnMut(T, usize) -> T)
        requires
            old(self)@.wf(),
            forall|t: T, i: usize| call_requires(f, (t, i)),
        ensures
            final(self)@.wf(),
            final(self)@.next_id == old(self)@.next_id,
            final(self)@.ids() == old(self)@.ids(),
            forall|j: int|
                0 <= j < old(self)@.len() ==> call_ensures(
                    f,
                    (old(self)@.entries[j].1, old(self)@.entries[j].0),
                    #[trigger] final(self)@.entries[j].1,
                ),
    {
        let ghost orig = self.objects@;
        let ghost f0 = f;
        let mut rest: Vec<(usize, T)> = Vec::new();
        std::mem::swap(&mut rest, &mut self.objects);
        let mut done: Vec<(usize, T)> = Vec::new();
        let n = rest.len();
        let mut i: usize = 0;
        while i < n
            invariant
                n == orig.len(),
                0 <= i <= n,
                f == f0,
                forall|t: T, i: usize| call_requires(f, (t, i)),
                rest@ == orig.subrange(i as int, n as int),
                done@.len() == i,
                forall|j: int| 0 <= j < i ==> (#[trigger] done@[j]).0 == orig[j].0,
                forall|j: int|
                    0 <= j < i ==> call_ensures(f, (orig[j].1, orig[j].0), (#[trigger] done@[j]).1),
            decreases n - i,
        {
            let (id, inner) = rest.remove(0);
            assert((id, inner) == orig[i as int]);
            let next = f(inner, id);
            assert(f == f0);
            done.push((id, next));
            proof {
                assert(rest@ =~= orig.subrange(i + 1, n as int));
            }
            i += 1;
        }
        self.objects = done;
        proof {
            assert(self@.ids() =~= old(self)@.ids());
            assert forall|j: int| 0 <= j < old(self)@.len() implies call_ensures(
                    f,
                    (old(self)@.entries[j].1, old(self)@.entries[j].0),
                    #[trigger] self@.entries[j].1,
                ) by {
                assert(self@.entries[j] == done@[j]);
            }
            assert forall|a: int, b: int|
                0 <= a < b < self@.entries.len() implies #[trigger] self@.entries[a].0
                < #[trigger] self@.entries[b].0 by {
                assert(old(self)@.entries[a].0 < old(self)@.entries[b].0);
            }
        }
    }

    /// Lets `f` change the object stored under `id` in place.
    pub fn with(&mut self, id: usize, f: impl FnMut(&mut T))
        requires
            old(self)@.wf(),
            old(self)@.contains(id),
            forall|t: &mut T| call_requires(f, (t,)),
        ensures
            final(self)@ == old(self)@.update(id, final(self)@.lookup(id)),
            exists|r: &mut T|
                mut_ref_current(r) == old(self)@.lookup(id) && mut_ref_future(r)
                    == final(self)@.lookup(id) && call_ensures(f, (r,), ()),
            final(self)@.wf(),
    {
        let mut f = f;
        let entity_index = self.id_to_index(id);
        let (_, mut inner) = self.objects.remove(entity_index);
        let ghost before = inner;
        f(&mut inner);
        let ghost after = inner;
        assert(exists|r: &mut T|
            mut_ref_current(r) == before && mut_ref_future(r) == after && call_ensures(f, (r,), ()));
        let ghost witness = choose|r: &mut T|
            mut_ref_current(r) == before && mut_ref_future(r) == after && call_ensures(f, (r,), ());
        self.objects.insert(entity_index, (id, inner));
        proof {
            assert(self@.entries =~= old(self)@.entries.update(entity_index as int, (id, after)));
            lemma_index_of(self@, entity_index as int);
            lemma_index_of(old(self)@, entity_index as int);
            assert(mut_ref_current(witness) == old(self)@.lookup(id) && mut_ref_future(witness)
                == self@.lookup(id) && call_ensures(f, (witness,), ()));
        }
    }

    /// Creates `T::default()` under the next id `i` and lets `f` change it in
    /// place, given `i`.
    pub fn with_new(&mut self, f: impl FnMut(&mut T, usize))
        requires
            old(self)@.wf(),
            old(self)@.next_id < usize::MAX,
            forall|t: &mut T, i: usize| call_requires(f, (t, i)),
        ensures
            final(self)@ == old(self)@.create(final(self)@.entries.last().1),
            exists|r: &mut T|
                call_ensures(T::default, (), mut_ref_current(r)) && mut_ref_future(r)
                    == final(self)@.entries.last().1 && call_ensures(f, (r, old(self)@.next_id), ()),
            final(self)@.wf(),
    {
        let mut f = f;
        let entity_id = self.create_object();
        proof {
            lemma_index_of(self@, self@.entries.len() - 1);
        }
        let entity_index = self.id_to_index(entity_id);
        let (_, mut inner) = self.objects.remove(entity_index);
        let ghost before = inner;
        f(&mut inner, entity_id);
        let ghost after = inner;
        assert(exists|r: &mut T|
            mut_ref_current(r) == before && mut_ref_future(r) == after && call_ensures(
                f,
                (r, entity_id),
                (),
            ));
        let ghost witness = choose|r: &mut T|
            mut_ref_current(r) == before && mut_ref_future(r) == after && call_ensures(
                f,
                (r, entity_id),
                (),
            );
        self.objects.push((entity_id, inner));
        proof {
            assert(self@.entries =~= old(self)@.entries.push((entity_id, after)));
            assert(self@ == old(self)@.create(after));
            assert(call_ensures(T::default, (), mut_ref_current(witness)) && mut_ref_future(witness)
                == self@.entries.last().1 && call_ensures(f, (witness, old(self)@.next_id), ()));
        }
    }
}

} // verus!