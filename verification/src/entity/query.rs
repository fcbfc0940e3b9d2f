//! The query engine: boolean-AND filtering over the presence masks.

use vstd::prelude::*;

use crate::entity::{bit_set, lemma_kind_pos_unique, EcsError, Entites, StoreModel};

verus! {

/// Mathematical model of a query: the borrowed store's model, the accumulated
/// desired bitmask and the requested kinds in insertion order.
pub ghost struct QueryModel<V> {
    pub store: StoreModel<V>,
    pub want: u32,
    pub requested: Seq<u64>,
}

/// The bitwise OR of the masks of `kinds` in `s`.
pub open spec fn masks_or<V>(s: StoreModel<V>, kinds: Seq<u64>) -> u32
    decreases kinds.len(),
{
    if kinds.len() == 0 {
        0u32
    } else {
        masks_or(s, kinds.drop_last()) | s.mask_of(kinds.last())
    }
}

/// A query under construction, holding a read-only borrow of the store.
pub struct Query<'a, V> {
    want: u32,
    entities: &'a Entites<V>,
    requested: Vec<u64>,
}

impl<'a, V> View for Query<'a, V> {
    type V = QueryModel<V>;

    closed spec fn view(&self) -> QueryModel<V> {
        QueryModel { store: self.entities@, want: self.want, requested: self.requested@ }
    }
}

impl<'a, V> Query<'a, V> {
    /// Every requested kind is registered and the desired mask is the OR of
    /// their masks.
    pub open spec fn inv(self) -> bool {
        &&& self@.store.inv()
        &&& forall|j: int|
            0 <= j < self@.requested.len() ==> self@.store.is_registered(#[trigger] self@.requested[j])
        &&& self@.want == masks_or(self@.store, self@.requested)
    }

    /// A query over `entities` that requests nothing yet.
    pub fn new(entities: &'a Entites<V>) -> (r: Self)
        requires
            entities@.inv(),
        ensures
            r.inv(),
            r@.store == entities@,
            r@.want == 0,
            r@.requested == Seq::<u64>::empty(),
    {
        Query { entities, want: 0, requested: Vec::new() }
    }

    /// ORs the mask of `kind` into the desired mask and appends `kind` to the
    /// requested kinds.  Fails with `KindNotRegistered` for a kind the store
    /// never registered.
    pub fn with_component(&mut self, kind: u64) -> (r: Result<(), EcsError>)
        requires
            old(self).inv(),
        ensures
            final(self).inv(),
            final(self)@.store == old(self)@.store,
            !old(self)@.store.is_registered(kind) ==> r == Err::<(), EcsError>(
                EcsError::KindNotRegistered,
            ) && final(self)@ == old(self)@,
            old(self)@.store.is_registered(kind) ==> {
                &&& r == Ok::<(), EcsError>(())
                &&& final(self)@.requested == old(self)@.requested.push(kind)
                &&& final(self)@.want == old(self)@.want | old(self)@.store.mask_of(kind)
            },
    {
        let mask = match self.entities.get_bitmask(kind) {
            Some(m) => m,
            None => {
                return Err(EcsError::KindNotRegistered);
            },
        };
        self.want = self.want | mask;
        self.requested.push(kind);
        proof {
            assert(self@.requested.drop_last() =~= old(self)@.requested);
            assert(self@.want == masks_or(self@.store, self@.requested));
        }
        Ok(())
    }

    /// Every kind OR-ed into a desired mask keeps its own bit in it.
    proof fn lemma_requested_mask_in_want(s: StoreModel<V>, req: Seq<u64>, j: int)
        requires
            0 <= j < req.len(),
        ensures
            masks_or(s, req) & s.mask_of(req[j]) == s.mask_of(req[j]),
        decreases req.len(),
    {
        let b = s.mask_of(req[j]);
        let inner = masks_or(s, req.drop_last());
        if j == req.len() - 1 {
            assert(masks_or(s, req) == inner | b);
            assert((inner | b) & b == b) by (bit_vector);
        } else {
            Self::lemma_requested_mask_in_want(s, req.drop_last(), j);
            let last = s.mask_of(req.last());
            assert(req.drop_last()[j] == req[j]);
            assert(inner & b == b);
            assert(inner & b == b ==> (inner | last) & b == b) by (bit_vector);
        }
    }

    /// A slot whose mask matches the desired mask has the bit of every
    /// requested kind set.
    proof fn lemma_match_gives_bit(s: StoreModel<V>, req: Seq<u64>, j: int, m: u32)
        requires
            0 <= j < req.len(),
            m & masks_or(s, req) == masks_or(s, req),
        ensures
            m & s.mask_of(req[j]) == s.mask_of(req[j]),
    {
        let want = masks_or(s, req);
        let b = s.mask_of(req[j]);
        Self::lemma_requested_mask_in_want(s, req, j);
        assert(m & want == want && want & b == b ==> m & b == b) by (bit_vector);
    }

    /// Scans the slots in ascending order and returns the indices whose mask
    /// contains every requested bit, together with, per requested kind in
    /// request order, the kind's values at exactly those slots.
    pub fn run(&self) -> (r: (Vec<usize>, Vec<Vec<V>>)) where V: Copy
        requires
            self.inv(),
        ensures
            ({
                let q = self@;
                let idx = r.0@;
                let cols = r.1@;
                &&& forall|a: int, b: int| 0 <= a < b < idx.len() ==> idx[a] < idx[b]
                &&& forall|a: int|
                    0 <= a < idx.len() ==> (#[trigger] idx[a]) < q.store.slot_count()
                        && q.store.slot_matches(idx[a] as int, q.want)
                &&& forall|i: int|
                    0 <= i < q.store.slot_count() && #[trigger] q.store.slot_matches(i, q.want)
                        ==> idx.contains(i as usize)
                &&& cols.len() == q.requested.len()
                &&& forall|j: int| 0 <= j < cols.len() ==> (#[trigger] cols[j])@.len() == idx.len()
                &&& forall|j: int, a: int|
                    0 <= j < cols.len() && 0 <= a < idx.len() ==> Some(#[trigger] cols[j]@[a])
                        == q.store.value_at(q.requested[j], idx[a] as int)
            }),
    {
        let n = self.entities.num_slots();
        let mut indexes: Vec<usize> = Vec::new();
        let mut i: usize = 0;
        while i < n
            invariant
                self.inv(),
                n == self@.store.slot_count(),
                i <= n,
                forall|a: int, b: int| 0 <= a < b < indexes@.len() ==> indexes@[a] < indexes@[b],
                forall|a: int|
                    0 <= a < indexes@.len() ==> (#[trigger] indexes@[a]) < i
                        && self@.store.slot_matches(indexes@[a] as int, self@.want),
                forall|s: int|
                    0 <= s < i && #[trigger] self@.store.slot_matches(s, self@.want)
                        ==> indexes@.contains(s as usize),
            decreases n - i,
        {
            if self.entities.slot_mask(i) & self.want == self.want {
                let ghost pre = indexes@;
                indexes.push(i);
                proof {
                    assert forall|s: int|
                        0 <= s < i + 1 && #[trigger] self@.store.slot_matches(s, self@.want)
                            implies indexes@.contains(s as usize) by {
                        if s < i as int {
                            assert(pre.contains(s as usize));
                            let a = choose|a: int| 0 <= a < pre.len() && pre[a] == s as usize;
                            assert(indexes@[a] == s as usize);
                        } else {
                            assert(indexes@[pre.len() as int] == i);
                        }
                    }
                }
            }
            i += 1;
        }
        let mut result: Vec<Vec<V>> = Vec::new();
        let mut j: usize = 0;
        while j < self.requested.len()
            invariant
                self.inv(),
                j <= self@.requested.len(),
                result@.len() == j,
                forall|a: int|
                    0 <= a < indexes@.len() ==> (#[trigger] indexes@[a])
                        < self@.store.slot_count() && self@.store.slot_matches(
                        indexes@[a] as int,
                        self@.want,
                    ),
                forall|t: int|
                    0 <= t < j ==> (#[trigger] result@[t])@.len() == indexes@.len(),
                forall|t: int, a: int|
                    0 <= t < j && 0 <= a < indexes@.len() ==> Some(#[trigger] result@[t]@[a])
                        == self@.store.value_at(self@.requested[t], indexes@[a] as int),
            decreases self@.requested.len() - j,
        {
            let kind = self.requested[j];
            let mut column: Vec<V> = Vec::new();
            let mut a: usize = 0;
            while a < indexes.len()
                invariant
                    self.inv(),
                    self@.store.is_registered(kind),
                    kind == self@.requested[j as int],
                    0 <= j < self@.requested.len(),
                    a <= indexes@.len(),
                    column@.len() == a,
                    forall|t: int|
                        0 <= t < indexes@.len() ==> (#[trigger] indexes@[t])
                            < self@.store.slot_count() && self@.store.slot_matches(
                            indexes@[t] as int,
                            self@.want,
                        ),
                    forall|t: int|
                        0 <= t < a ==> Some(#[trigger] column@[t]) == self@.store.value_at(
                            kind,
                            indexes@[t] as int,
                        ),
                decreases indexes@.len() - a,
            {
                let slot = indexes[a];
                proof {
                    Self::lemma_match_gives_bit(
                        self@.store,
                        self@.requested,
                        j as int,
                        self@.store.masks[slot as int],
                    );
                    lemma_kind_pos_unique(
                        self@.store,
                        kind,
                        self@.store.kind_pos(kind),
                    );
                    assert(bit_set(
                        self@.store.masks[slot as int],
                        self@.store.kind_pos(kind) as u32,
                    ));
                    assert(self@.store.value_at(kind, slot as int) is Some);
                }
                match self.entities.component_at(kind, slot) {
                    Some(v) => column.push(v),
                    None => {
                        proof {
                            assert(false);
                        }
                    },
                }
                a += 1;
            }
            result.push(column);
            j += 1;
        }
        (indexes, result)
    }

    /// The accumulated desired bitmask.
    pub fn mask(&self) -> (r: u32)
        ensures
            r == self@.want,
    {
        self.want
    }

    /// The requested kind keys, in the order they were added.
    pub fn kinds(&self) -> (r: &Vec<u64>)
        ensures
            r@ == self@.requested,
    {
        &self.requested
    }
}

} // verus!
