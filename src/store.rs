//! Store values in a central owner that behaves like a map with generated keys.
//!
//! Handles carry a version so that a handle to a removed value never reaches the
//! value that later takes its slot.
use core::marker::PhantomData;
use vstd::prelude::*;

verus! {

/// The version of a free slot.
pub const INVALID_VERSION: u32 = 0;

/// The version of a slot's first value.
pub const FIRST_VALID_VERSION: u32 = 1;

/// A handle to a value of a `Store<T>`.
#[derive(Debug)]
pub struct Id<T> {
    index: usize,
    version: u32,
    _marker: PhantomData<T>,
}

struct Versioned<T> {
    value: T,
    version: u32,
}

impl<T> Id<T> {
    /// The slot the handle refers to.
    pub closed spec fn idx(self) -> int {
        self.index as int
    }

    /// The version the slot must carry for the handle to be valid.
    pub closed spec fn ver(self) -> int {
        self.version as int
    }

    fn new(index: usize, version: u32) -> (r: Self)
        ensures
            r.idx() == index,
            r.ver() == version,
    {
        Id { index, version, _marker: PhantomData }
    }

    /// The handle that the next value in the same slot gets.
    fn reuse(self) -> (r: Self)
        requires
            self.ver() < u32::MAX,
        ensures
            r.idx() == self.idx(),
            r.ver() == self.ver() + 1,
    {
        Id::new(self.index, self.version + 1)
    }
}

impl<T> Clone for Id<T> {
    fn clone(&self) -> (r: Self)
        ensures
            r == *self,
    {
        *self
    }
}

impl<T> Copy for Id<T> {

}

impl<T> PartialEq for Id<T> {
    fn eq(&self, other: &Id<T>) -> (r: bool) {
        self.index == other.index && self.version == other.version
    }
}

impl<T> vstd::std_specs::cmp::PartialEqSpecImpl for Id<T> {
    open spec fn obeys_eq_spec() -> bool {
        true
    }

    open spec fn eq_spec(&self, other: &Id<T>) -> bool {
        self.idx() == other.idx() && self.ver() == other.ver()
    }
}

impl<T> Eq for Id<T> {

}

/// What `insert` does: `t` is `s` with `value` stored under the new handle `r`,
/// which is valid and differs from every handle valid before, all of which stay valid.
pub open spec fn inserted<T>(s: Store<T>, t: Store<T>, value: T, r: Id<T>) -> bool {
    &&& t.valid(r)
    &&& t.value_at(r.idx()) == value
    &&& s.free().len() > 0 ==> r == s.free().last() && t.free() == s.free().drop_last()
        && t.len_spec() == s.len_spec()
    &&& s.free().len() == 0 ==> r.idx() == s.len_spec() && r.ver() == FIRST_VALID_VERSION
        && t.free() == s.free() && t.len_spec() == s.len_spec() + 1
    &&& forall|i: int|
        0 <= i < s.len_spec() && i != r.idx() ==> t.version_at(i) == s.version_at(i)
            && t.value_at(i) == s.value_at(i)
    &&& forall|id: Id<T>| #[trigger] s.valid(id) ==> t.valid(id) && id != r && id.idx() != r.idx()
}

/// What `remove` does: `ok` tells whether `id` was valid in `s`; if it was, its
/// slot is freed in `t` and its next handle, one version up, joins the pool
/// (unless the version is exhausted); if not, nothing changes.
pub open spec fn removed<T>(s: Store<T>, t: Store<T>, id: Id<T>, ok: bool) -> bool {
    &&& ok == s.valid(id)
    &&& !t.valid(id)
    &&& t.len_spec() == s.len_spec()
    &&& ok ==> t.version_at(id.idx()) == INVALID_VERSION
    &&& ok && id.ver() < u32::MAX ==> t.free().len() == s.free().len() + 1 && t.free().drop_last()
        == s.free() && t.free().last().idx() == id.idx() && t.free().last().ver() == id.ver() + 1
    &&& ok && id.ver() == u32::MAX ==> t.free() == s.free()
    &&& !ok ==> t == s
    &&& forall|i: int|
        0 <= i < s.len_spec() && i != id.idx() ==> t.version_at(i) == s.version_at(i)
    &&& forall|i: int| 0 <= i < s.len_spec() ==> t.value_at(i) == s.value_at(i)
}

/// Handles handed out by successive inserts are pairwise distinct and all valid.
pub proof fn lemma_inserts_distinct<T>(
    s0: Store<T>,
    s1: Store<T>,
    s2: Store<T>,
    v1: T,
    v2: T,
    a: Id<T>,
    b: Id<T>,
)
    requires
        inserted(s0, s1, v1, a),
        inserted(s1, s2, v2, b),
    ensures
        s2.valid(a),
        s2.valid(b),
        a != b,
{
    assert(s1.valid(a));
}

/// Handles handed out by any run of inserts are pairwise distinct, and each one
/// still refers to the value inserted with it.
pub proof fn lemma_insert_run<T>(stores: Seq<Store<T>>, values: Seq<T>, ids: Seq<Id<T>>)
    requires
        stores.len() == values.len() + 1,
        ids.len() == values.len(),
        forall|k: int|
            0 <= k < values.len() ==> inserted(#[trigger] stores[k], stores[k + 1], values[k], ids[k]),
    ensures
        forall|a: int, b: int| 0 <= a < b < ids.len() ==> ids[a] != ids[b],
        forall|k: int|
            0 <= k < ids.len() ==> stores.last().valid(#[trigger] ids[k]) && stores.last().value_at(
                ids[k].idx(),
            ) == values[k],
    decreases values.len(),
{
    let n = values.len() as int;
    if n > 0 {
        let ps = stores.drop_last();
        let pv = values.drop_last();
        let pi = ids.drop_last();
        assert forall|k: int| 0 <= k < pv.len() implies inserted(#[trigger] ps[k], ps[k + 1], pv[k], pi[k]) by {
            assert(inserted(stores[k], stores[k + 1], values[k], ids[k]));
        }
        lemma_insert_run(ps, pv, pi);
        let s = stores[n - 1];
        let t = stores[n];
        assert(inserted(s, t, values[n - 1], ids[n - 1]));
        assert(ps.last() == s);
        assert forall|k: int| 0 <= k < n - 1 implies t.valid(#[trigger] ids[k]) && t.value_at(ids[k].idx())
            == values[k] && ids[k] != ids[n - 1] by {
            assert(pi[k] == ids[k]);
            assert(s.valid(ids[k]));
        }
        assert forall|a: int, b: int| 0 <= a < b < ids.len() implies ids[a] != ids[b] by {
            if b < n - 1 {
                assert(pi[a] == ids[a] && pi[b] == ids[b]);
            } else {
                assert(t.valid(ids[a]) && ids[a] != ids[n - 1]);
            }
        }
    }
}

/// After a handle is removed, the next insert never hands the same handle back,
/// and the removed handle stays invalid.
pub proof fn lemma_reinsert_differs<T>(
    s0: Store<T>,
    s1: Store<T>,
    s2: Store<T>,
    id: Id<T>,
    value: T,
    r: Id<T>,
)
    requires
        s0.wf(),
        removed(s0, s1, id, true),
        inserted(s1, s2, value, r),
    ensures
        r != id,
        !s2.valid(id),
{
    if id.ver() == u32::MAX && s1.free().len() > 0 {
        let k = s0.free().len() - 1;
        assert(s0.free()[k] == r);
        assert(s0.version_at(r.idx()) == INVALID_VERSION);
    }
}

/// A growable list of versioned slots and a pool of handles to free slots.
pub struct Store<T> {
    values: Vec<Versioned<T>>,
    reusable_ids: Vec<Id<T>>,
}

impl<T> Store<T> {
    /// Number of slots.
    pub closed spec fn len_spec(&self) -> int {
        self.values@.len() as int
    }

    /// Version of slot `i`: zero while it is free.
    pub closed spec fn version_at(&self, i: int) -> int {
        self.values@[i].version as int
    }

    /// Value last written to slot `i`.
    pub closed spec fn value_at(&self, i: int) -> T {
        self.values@[i].value
    }

    /// Handles that the next inserts hand out, the last one first.
    pub closed spec fn free(&self) -> Seq<Id<T>> {
        self.reusable_ids@
    }

    /// Whether a handle currently refers to a value.
    pub open spec fn valid(&self, id: Id<T>) -> bool {
        &&& 0 <= id.idx() < self.len_spec()
        &&& id.ver() != INVALID_VERSION
        &&& self.version_at(id.idx()) == id.ver()
    }

    /// The values of the occupied slots from slot `i` on, in slot order.
    pub open spec fn live_from(&self, i: int) -> Seq<T>
        decreases self.len_spec() - i,
    {
        if i < 0 || i >= self.len_spec() {
            Seq::empty()
        } else if self.version_at(i) != INVALID_VERSION {
            seq![self.value_at(i)] + self.live_from(i + 1)
        } else {
            self.live_from(i + 1)
        }
    }

    /// Every free handle points at a distinct free slot and carries a usable version.
    pub open spec fn wf(&self) -> bool {
        &&& forall|k: int|
            0 <= k < self.free().len() ==> {
                let f = #[trigger] self.free()[k];
                &&& 0 <= f.idx() < self.len_spec()
                &&& self.version_at(f.idx()) == INVALID_VERSION
                &&& f.ver() != INVALID_VERSION
            }
        &&& forall|k: int, l: int|
            0 <= k < l < self.free().len() ==> #[trigger] self.free()[k].idx() != #[trigger] self.free()[l].idx()
    }

    /// Number of occupied slots below slot `i`.
    pub open spec fn occupied_below(&self, i: int) -> int
        decreases i,
    {
        if i <= 0 {
            0
        } else if self.version_at(i - 1) != INVALID_VERSION {
            self.occupied_below(i - 1) + 1
        } else {
            self.occupied_below(i - 1)
        }
    }

    /// The walk from slot `j` on holds the value of each occupied slot `i >= j` at
    /// its rank among the occupied slots from `j` on, and nothing else.
    proof fn lemma_live_from(&self, j: int)
        requires
            0 <= j <= self.len_spec(),
        ensures
            self.live_from(j).len() == self.occupied_below(self.len_spec()) - self.occupied_below(j),
            forall|i: int|
                j <= i < self.len_spec() && self.version_at(i) != INVALID_VERSION ==> {
                    let r = #[trigger] self.occupied_below(i) - self.occupied_below(j);
                    &&& 0 <= r < self.live_from(j).len()
                    &&& self.live_from(j)[r] == self.value_at(i)
                },
        decreases self.len_spec() - j,
    {
        if j < self.len_spec() {
            self.lemma_live_from(j + 1);
            assert forall|i: int|
                j <= i < self.len_spec() && self.version_at(i) != INVALID_VERSION implies {
                    let r = #[trigger] self.occupied_below(i) - self.occupied_below(j);
                    &&& 0 <= r < self.live_from(j).len()
                    &&& self.live_from(j)[r] == self.value_at(i)
                } by {
                if i > j {
                    assert(self.occupied_below(i) - self.occupied_below(j + 1) >= 0);
                }
            }
        }
    }

    /// Walking the whole store yields, for each occupied slot in slot order, its
    /// value, and nothing more: the value of occupied slot `i` comes at its rank
    /// among the occupied slots, and there are as many values as occupied slots.
    pub proof fn lemma_walk(&self)
        ensures
            self.live_from(0).len() == self.occupied_below(self.len_spec()),
            forall|i: int|
                0 <= i < self.len_spec() && self.version_at(i) != INVALID_VERSION ==> 0
                    <= #[trigger] self.occupied_below(i) < self.live_from(0).len() && self.live_from(
                    0,
                )[self.occupied_below(i)] == self.value_at(i),
    {
        self.lemma_live_from(0);
        assert forall|i: int|
            0 <= i < self.len_spec() && self.version_at(i) != INVALID_VERSION implies 0
                <= #[trigger] self.occupied_below(i) < self.live_from(0).len() && self.live_from(
                0,
            )[self.occupied_below(i)] == self.value_at(i) by {
            assert(self.occupied_below(i) - self.occupied_below(0) == self.occupied_below(i));
        }
    }

    /// Creates an empty store.
    pub fn new() -> (r: Self)
        ensures
            r.wf(),
            r.len_spec() == 0,
            r.free().len() == 0,
            r.live_from(0) == Seq::<T>::empty(),
    {
        Store { values: Vec::new(), reusable_ids: Vec::new() }
    }

    /// Adds a value to the store and returns a handle to it.
    ///
    /// The most recently freed slot is reused when there is one; otherwise a new
    /// slot is appended with the first valid version.
    pub fn insert(&mut self, value: T) -> (r: Id<T>)
        requires
            old(self).wf(),
        ensures
            final(self).wf(),
            inserted(*old(self), *final(self), value, r),
    {
        if self.reusable_ids.len() > 0 {
            let id = self.reusable_ids.pop().unwrap();
            self.values.set(id.index, Versioned { value, version: id.version });
            proof {
                assert forall|k: int| 0 <= k < self.free().len() implies #[trigger] self.free()[k].idx()
                    != id.idx() by {
                    assert(old(self).free()[k] == self.free()[k]);
                    assert(old(self).free()[old(self).free().len() - 1] == id);
                }
            }
            id
        } else {
            let id = Id::new(self.values.len(), FIRST_VALID_VERSION);
            self.values.push(Versioned { value, version: id.version });
            id
        }
    }

    /// A reference to the value that the handle refers to, if it is still valid.
    pub fn get(&self, id: Id<T>) -> (r: Option<&T>)
        ensures
            r.is_some() == self.valid(id),
            r.is_some() ==> *r.unwrap() == self.value_at(id.idx()),
    {
        if id.index < self.values.len() && id.version != INVALID_VERSION
            && self.values[id.index].version == id.version {
            Some(&self.values[id.index].value)
        } else {
            None
        }
    }

    /// A mutable reference to the value that the handle refers to, if it is still valid.
    pub fn get_mut(&mut self, id: Id<T>) -> (r: Option<&mut T>)
        requires
            old(self).wf(),
        ensures
            final(self).wf(),
            r.is_some() == old(self).valid(id),
            r.is_some() ==> *r.unwrap() == old(self).value_at(id.idx()),
            final(self).len_spec() == old(self).len_spec(),
            final(self).free() == old(self).free(),
            forall|i: int|
                0 <= i < old(self).len_spec() ==> final(self).version_at(i) == old(self).version_at(i),
            forall|i: int|
                0 <= i < old(self).len_spec() && (r.is_none() || i != id.idx()) ==> final(self).value_at(i)
                    == old(self).value_at(i),
            r.is_some() ==> final(self).value_at(id.idx()) == *final(r.unwrap()),
    {
        if id.index < self.values.len() && id.version != INVALID_VERSION
            && self.values[id.index].version == id.version {
            Some(&mut self.values[id.index].value)
        } else {
            None
        }
    }

    /// Removes the value that the handle refers to; `true` when it was present.
    ///
    /// The slot is freed and its next handle, one version up, goes to the pool.
    /// A slot whose version has reached `u32::MAX` is retired instead.
    pub fn remove(&mut self, id: Id<T>) -> (r: bool)
        requires
            old(self).wf(),
        ensures
            final(self).wf(),
            removed(*old(self), *final(self), id, r),
    {
        if id.index < self.values.len() && id.version != INVALID_VERSION
            && self.values[id.index].version == id.version {
            let ghost before = *self;
            self.values[id.index].version = INVALID_VERSION;
            if id.version < u32::MAX {
                self.reusable_ids.push(id.reuse());
                proof {
                    assert forall|k: int| 0 <= k < before.free().len() implies #[trigger] before.free()[k].idx()
                        != id.idx() by {
                        let f = before.free()[k];
                        assert(before.version_at(f.idx()) == INVALID_VERSION);
                    }
                    assert(self.free().drop_last() =~= before.free());
                }
            }
            true
        } else {
            false
        }
    }

    /// Walks the values of the occupied slots in slot order.
    pub fn iter(&self) -> (r: Iter<'_, T>)
        ensures
            r.remaining() == self.live_from(0),
    {
        Iter { store: self, index: 0 }
    }
}

/// A walk over the values of a store's occupied slots.
pub struct Iter<'a, T> {
    store: &'a Store<T>,
    index: usize,
}

impl<'a, T> Iter<'a, T> {
    /// The values still to come.
    pub closed spec fn remaining(&self) -> Seq<T> {
        self.store.live_from(self.index as int)
    }

    /// The next value, in slot order, or `None` when all have been seen.
    pub fn next(&mut self) -> (r: Option<&'a T>)
        ensures
            old(self).remaining().len() == 0 ==> r.is_none() && final(self).remaining().len() == 0,
            old(self).remaining().len() > 0 ==> r.is_some() && *r.unwrap() == old(self).remaining()[0]
                && final(self).remaining() == old(self).remaining().drop_first(),
    {
        while self.index < self.store.values.len()
            invariant
                self.store == old(self).store,
                self.remaining() == old(self).remaining(),
            decreases self.store.values.len() - self.index,
        {
            let versioned = &self.store.values[self.index];
            self.index = self.index + 1;
            if versioned.version != INVALID_VERSION {
                return Some(&versioned.value);
            }
        }
        None
    }
}

} // verus!
