//! The entity store: presence bitmasks, per-kind columns and the slot lifecycle.
//!
//! Each registered component kind is identified by a caller-chosen `u64` key
//! and is assigned, in registration order, the power-of-two bitmask
//! `1, 2, 4, ...`.  An entity is nothing but a slot index into the parallel
//! sequences: the mask sequence (one presence bitmask per slot) and one column
//! of optional component values per kind.  A slot whose mask is zero is a
//! tombstone, eligible for reuse by the next creation.

use vstd::prelude::*;

pub mod query;

verus! {

/// Why an operation on the store could not be carried out.
#[derive(Clone, Copy, Debug, PartialEq, Eq, Structural)]
pub enum EcsError {
    /// The operation names a component kind with no assigned bitmask.
    KindNotRegistered,
    /// A cursor-based attach was called before any entity was created.
    ConstructionCursorInvalid,
    /// An explicit slot index is outside the current slot range.
    SlotOutOfRange,
    /// A deletion targets a slot index outside the current slot range.
    EntityDoesNotExist,
}

/// Mathematical model of an entity store.
///
/// `kinds` lists the registered kind keys in registration order; the kind at
/// position `k` owns bit `k`.  `masks` holds one presence bitmask per slot and
/// `columns` one value sequence per kind, all slot-aligned.  `cursor` is the
/// slot targeted by the next cursor-based attach.
#[verifier::ext_equal]
pub ghost struct StoreModel<V> {
    pub kinds: Seq<u64>,
    pub masks: Seq<u32>,
    pub columns: Seq<Seq<Option<V>>>,
    pub cursor: int,
}

/// Bit `k` of `m` is set.
pub open spec fn bit_set(m: u32, k: u32) -> bool {
    m & (1u32 << k) == (1u32 << k)
}

impl<V> StoreModel<V> {
    pub open spec fn num_kinds(self) -> nat {
        self.kinds.len()
    }

    pub open spec fn slot_count(self) -> nat {
        self.masks.len()
    }

    pub open spec fn is_registered(self, kind: u64) -> bool {
        self.kinds.contains(kind)
    }

    /// The registration position of `kind`; meaningful only when registered.
    pub open spec fn kind_pos(self, kind: u64) -> int {
        choose|j: int| 0 <= j < self.kinds.len() && self.kinds[j] == kind
    }

    /// The bitmask assigned to `kind`: one bit, at its registration position.
    pub open spec fn mask_of(self, kind: u64) -> u32 {
        1u32 << (self.kind_pos(kind) as u32)
    }

    pub open spec fn mask_at(self, slot: int) -> u32 {
        self.masks[slot]
    }

    /// The value stored for `kind` at `slot`.
    pub open spec fn value_at(self, kind: u64, slot: int) -> Option<V> {
        self.columns[self.kind_pos(kind)][slot]
    }

    /// The slot's presence mask contains every bit of `want`.
    pub open spec fn slot_matches(self, slot: int, want: u32) -> bool {
        self.masks[slot] & want == want
    }

    /// The kind keys are pairwise distinct.
    pub open spec fn kinds_distinct(self) -> bool {
        forall|i: int, j: int| 0 <= i < j < self.kinds.len() ==> self.kinds[i] != self.kinds[j]
    }

    /// Structural well-formedness: one column per kind, all columns
    /// slot-aligned, kind keys distinct, no presence bit outside the
    /// registered kinds, and a set presence bit always backed by a stored
    /// value.
    pub open spec fn inv(self) -> bool {
        &&& self.columns.len() == self.kinds.len()
        &&& self.num_kinds() <= 32
        &&& forall|k: int|
            0 <= k < self.columns.len() ==> (#[trigger] self.columns[k]).len() == self.slot_count()
        &&& self.kinds_distinct()
        &&& forall|i: int, b: int|
            0 <= i < self.slot_count() && self.kinds.len() <= b < 32 ==> !#[trigger] bit_set(
                self.masks[i],
                b as u32,
            )
        &&& forall|k: int, i: int|
            0 <= k < self.kinds.len() && 0 <= i < self.slot_count() && bit_set(
                #[trigger] self.masks[i],
                k as u32,
            ) ==> (#[trigger] self.columns[k][i]) is Some
    }
}

/// With distinct kind keys, the registration position of a key is the one
/// index that holds it.
pub proof fn lemma_kind_pos_unique<V>(s: StoreModel<V>, kind: u64, p: int)
    requires
        s.kinds_distinct(),
        0 <= p < s.kinds.len(),
        s.kinds[p] == kind,
    ensures
        s.is_registered(kind),
        s.kind_pos(kind) == p,
{
    assert(s.kinds[p] == kind);
    let q = s.kind_pos(kind);
    if q != p {
        assert(s.kinds[q] == kind);
        assert(false);
    }
}

/// A registered kind's registration position lies among the kinds and holds
/// its key.
pub proof fn lemma_registered_pos<V>(s: StoreModel<V>, kind: u64)
    requires
        s.kinds_distinct(),
        s.is_registered(kind),
    ensures
        0 <= s.kind_pos(kind) < s.kinds.len(),
        s.kinds[s.kind_pos(kind)] == kind,
{
    let i = choose|i: int| 0 <= i < s.kinds.len() && s.kinds[i] == kind;
    assert(s.kinds[i] == kind);
    lemma_kind_pos_unique(s, kind, i);
}

/// Registration assigns the masks 1, 2, 4, ... in order: the first registered
/// kind's mask is 1, each later kind's mask doubles the one before, and the
/// masks strictly increase in registration order.
pub proof fn lemma_masks_increasing_powers_of_two<V>(s: StoreModel<V>)
    requires
        s.inv(),
    ensures
        s.num_kinds() > 0 ==> s.mask_of(s.kinds[0]) == 1,
        forall|k: int|
            0 < k < s.num_kinds() ==> #[trigger] s.mask_of(s.kinds[k]) == 2 * s.mask_of(
                s.kinds[k - 1],
            ),
        forall|j: int, k: int|
            0 <= j < k < s.num_kinds() ==> s.mask_of(s.kinds[j]) < s.mask_of(s.kinds[k]),
{
    assert forall|k: int| 0 <= k < s.num_kinds() implies #[trigger] s.mask_of(s.kinds[k]) == 1u32
        << (k as u32) by {
        lemma_kind_pos_unique(s, s.kinds[k], k);
    }
    assert(1u32 << 0u32 == 1) by (bit_vector);
    assert(forall|k: u32| 0 < k < 32 ==> #[trigger] (1u32 << k) == 2 * (1u32 << ((k - 1) as u32)))
        by (bit_vector);
    assert(forall|j: u32, k: u32| j < k < 32 ==> (1u32 << j) < (1u32 << k)) by (bit_vector);
}

/// A slot that starts from an empty presence mask and receives components of
/// two kinds through consecutive attaches carries exactly the bitwise OR of
/// the two kinds' masks.
pub proof fn lemma_mask_after_two_attaches<V>(
    s0: StoreModel<V>,
    s1: StoreModel<V>,
    s2: StoreModel<V>,
    ka: u64,
    kb: u64,
    slot: int,
)
    requires
        s0.kinds_distinct(),
        s0.is_registered(ka),
        s0.is_registered(kb),
        0 <= slot < s0.slot_count(),
        s0.mask_at(slot) == 0,
        s1.kinds == s0.kinds,
        s1.masks == s0.masks.update(slot, s0.mask_at(slot) | s0.mask_of(ka)),
        s2.masks == s1.masks.update(slot, s1.mask_at(slot) | s1.mask_of(kb)),
    ensures
        s2.mask_at(slot) == s0.mask_of(ka) | s0.mask_of(kb),
{
    lemma_registered_pos(s0, kb);
    lemma_kind_pos_unique(s1, kb, s0.kind_pos(kb));
    let ma = s0.mask_of(ka);
    let mb = s0.mask_of(kb);
    assert(s1.mask_of(kb) == mb);
    assert(s1.mask_at(slot) == 0u32 | ma);
    assert(s2.mask_at(slot) == (0u32 | ma) | mb);
    assert((0u32 | ma) | mb == ma | mb) by (bit_vector);
}

/// Detaching a kind from a slot clears exactly that kind's bit — every other
/// bit keeps its value and every other slot is untouched — and detaching the
/// same kind again changes nothing.
pub proof fn lemma_detach_exact_and_idempotent<V>(
    s0: StoreModel<V>,
    s1: StoreModel<V>,
    s2: StoreModel<V>,
    kind: u64,
    slot: int,
)
    requires
        s0.kinds_distinct(),
        s0.num_kinds() <= 32,
        s0.is_registered(kind),
        0 <= slot < s0.slot_count(),
        s1.kinds == s0.kinds,
        s1.masks == s0.masks.update(slot, s0.mask_at(slot) & !s0.mask_of(kind)),
        s2.masks == s1.masks.update(slot, s1.mask_at(slot) & !s1.mask_of(kind)),
    ensures
        !bit_set(s1.mask_at(slot), s0.kind_pos(kind) as u32),
        forall|b: u32|
            b < 32 && b != s0.kind_pos(kind) as u32 ==> (bit_set(s1.mask_at(slot), b) <==> bit_set(
                s0.mask_at(slot),
                b,
            )),
        forall|i: int| 0 <= i < s0.slot_count() && i != slot ==> s1.masks[i] == s0.masks[i],
        s2.masks == s1.masks,
{
    lemma_registered_pos(s0, kind);
    let p = s0.kind_pos(kind);
    lemma_kind_pos_unique(s1, kind, p);
    let m = s0.mask_at(slot);
    lemma_clear_bit(m, p as u32, p as u32);
    assert(!bit_set(s1.mask_at(slot), p as u32));
    assert forall|b: u32|
        b < 32 && b != p as u32 implies (bit_set(s1.mask_at(slot), b) <==> bit_set(m, b)) by {
        lemma_clear_bit(m, p as u32, b);
    }
    let m1 = s1.mask_at(slot);
    let pu = p as u32;
    assert(m1 == m & !(1u32 << pu));
    assert((m & !(1u32 << pu)) & !(1u32 << pu) == m & !(1u32 << pu)) by (bit_vector);
    assert(s2.masks =~= s1.masks);
}

/// After tombstoning a slot below which every slot is live, the next creation
/// reuses exactly that slot and the slot count does not grow.
pub proof fn lemma_delete_then_create_reuses_slot<V>(
    s0: StoreModel<V>,
    s1: StoreModel<V>,
    s2: StoreModel<V>,
    slot: int,
)
    requires
        0 <= slot < s0.slot_count(),
        forall|j: int| 0 <= j < slot ==> s0.masks[j] != 0,
        s1.masks == s0.masks.update(slot, 0u32),
        (exists|i: int| 0 <= i < s1.slot_count() && s1.masks[i] == 0) ==> {
            &&& s2.masks == s1.masks
            &&& 0 <= s2.cursor < s2.slot_count()
            &&& s1.masks[s2.cursor] == 0
            &&& forall|j: int| 0 <= j < s2.cursor ==> s1.masks[j] != 0
        },
    ensures
        s2.cursor == slot,
        s2.slot_count() == s0.slot_count(),
{
    assert(s1.masks[slot] == 0);
    if s2.cursor < slot {
        assert(s1.masks[s2.cursor] == s0.masks[s2.cursor]);
        assert(false);
    }
    if s2.cursor > slot {
        assert(s1.masks[slot] != 0);
        assert(false);
    }
}

/// Setting bit `p` sets exactly bit `p`: bit `p` comes on and every other bit
/// keeps its value.
proof fn lemma_set_bit(m: u32, p: u32, k: u32)
    requires
        p < 32,
        k < 32,
    ensures
        bit_set(m | (1u32 << p), p),
        k != p ==> (bit_set(m | (1u32 << p), k) <==> bit_set(m, k)),
{
    assert((m | (1u32 << p)) & (1u32 << p) == (1u32 << p)) by (bit_vector)
        requires
            p < 32,
    ;
    assert(k != p ==> ((m | (1u32 << p)) & (1u32 << k) == (1u32 << k) <==> m & (1u32 << k) == (
    1u32 << k))) by (bit_vector)
        requires
            p < 32,
            k < 32,
    ;
}

/// Clearing bit `p` clears exactly bit `p`: bit `p` goes off and every other
/// bit keeps its value.
proof fn lemma_clear_bit(m: u32, p: u32, k: u32)
    requires
        p < 32,
        k < 32,
    ensures
        !bit_set(m & !(1u32 << p), p),
        k != p ==> (bit_set(m & !(1u32 << p), k) <==> bit_set(m, k)),
{
    assert((m & !(1u32 << p)) & (1u32 << p) != (1u32 << p)) by (bit_vector)
        requires
            p < 32,
    ;
    assert(k != p ==> ((m & !(1u32 << p)) & (1u32 << k) == (1u32 << k) <==> m & (1u32 << k) == (
    1u32 << k))) by (bit_vector)
        requires
            p < 32,
            k < 32,
    ;
}

/// The all-zero mask has no bit set.
proof fn lemma_zero_mask_empty(k: u32)
    requires
        k < 32,
    ensures
        !bit_set(0u32, k),
{
    assert(0u32 & (1u32 << k) != (1u32 << k)) by (bit_vector)
        requires
            k < 32,
    ;
}

/// The entity store.
pub struct Entites<V> {
    kinds: Vec<u64>,
    columns: Vec<Vec<Option<V>>>,
    masks: Vec<u32>,
    cursor: usize,
}

impl<V> View for Entites<V> {
    type V = StoreModel<V>;

    closed spec fn view(&self) -> StoreModel<V> {
        StoreModel {
            kinds: self.kinds@,
            masks: self.masks@,
            columns: Seq::new(self.columns@.len(), |k: int| self.columns@[k]@),
            cursor: self.cursor as int,
        }
    }
}

impl<V> Default for Entites<V> {
    /// The same store as [`Entites::new`] returns.
    fn default() -> (r: Self)
        ensures
            r@.inv(),
            r@.kinds == Seq::<u64>::empty(),
            r@.masks == Seq::<u32>::empty(),
            r@.columns == Seq::<Seq<Option<V>>>::empty(),
            r@.cursor == 0,
    {
        Entites::new()
    }
}

impl<V> Entites<V> {
    /// A store with no registered kinds and no slots.
    pub fn new() -> (r: Self)
        ensures
            r@.inv(),
            r@.kinds == Seq::<u64>::empty(),
            r@.masks == Seq::<u32>::empty(),
            r@.columns == Seq::<Seq<Option<V>>>::empty(),
            r@.cursor == 0,
    {
        let r = Entites { kinds: Vec::new(), columns: Vec::new(), masks: Vec::new(), cursor: 0 };
        proof {
            assert(r@.columns =~= Seq::<Seq<Option<V>>>::empty());
        }
        r
    }

    /// The registration position of `kind`, if it is registered.
    fn find_pos(&self, kind: u64) -> (r: Option<usize>)
        requires
            self@.inv(),
        ensures
            r is Some <==> self@.is_registered(kind),
            r matches Some(p) ==> p < self@.num_kinds() && self@.kinds[p as int] == kind
                && self@.kind_pos(kind) == p,
    {
        let mut j: usize = 0;
        while j < self.kinds.len()
            invariant
                self@.inv(),
                j <= self@.num_kinds(),
                forall|i: int| 0 <= i < j ==> self@.kinds[i] != kind,
            decreases self@.num_kinds() - j,
        {
            if self.kinds[j] == kind {
                proof {
                    lemma_kind_pos_unique(self@, kind, j as int);
                }
                return Some(j);
            }
            j += 1;
        }
        proof {
            assert(!self@.kinds.contains(kind));
        }
        None
    }

    /// Assigns the next unused power-of-two bitmask to `kind` and creates an
    /// empty entry for it in every existing slot, so that all columns stay
    /// slot-aligned.  Registering a key that is already registered leaves the
    /// store unchanged.  The mask is 32 bits wide, so at most 32 kinds can
    /// ever be registered; the precondition enforces that ceiling.
    pub fn register_component(&mut self, kind: u64)
        requires
            old(self)@.inv(),
            old(self)@.is_registered(kind) || old(self)@.num_kinds() < 32,
        ensures
            final(self)@.inv(),
            old(self)@.is_registered(kind) ==> final(self)@ == old(self)@,
            !old(self)@.is_registered(kind) ==> {
                &&& final(self)@.kinds == old(self)@.kinds.push(kind)
                &&& final(self)@.masks == old(self)@.masks
                &&& final(self)@.columns == old(self)@.columns.push(
                    Seq::new(old(self)@.slot_count(), |i: int| None::<V>),
                )
                &&& final(self)@.cursor == old(self)@.cursor
                &&& final(self)@.is_registered(kind)
                &&& final(self)@.mask_of(kind) == 1u32 << (old(self)@.num_kinds() as u32)
            },
    {
        if self.find_pos(kind).is_some() {
            proof {
                assert(self@ =~~= old(self)@);
            }
            return ;
        }
        let ghost s0 = self@;
        let mut column: Vec<Option<V>> = Vec::new();
        let mut i: usize = 0;
        while i < self.masks.len()
            invariant
                column@ =~= Seq::new(i as nat, |j: int| None::<V>),
                i <= self.masks@.len(),
                *self == *old(self),
            decreases self.masks@.len() - i,
        {
            column.push(None);
            i += 1;
        }
        self.kinds.push(kind);
        self.columns.push(column);
        proof {
            assert(self@.kinds =~= s0.kinds.push(kind));
            assert(self@.columns =~= s0.columns.push(Seq::new(s0.slot_count(), |i: int| None::<V>)));
            lemma_kind_pos_unique(self@, kind, s0.kinds.len() as int);
            assert forall|k: int, i: int|
                0 <= k < self@.kinds.len() && 0 <= i < self@.slot_count() && bit_set(
                    self@.masks[i],
                    k as u32,
                ) implies (self@.columns[k][i]) is Some by {
                assert(self@.masks[i] == s0.masks[i]);
                if k < s0.kinds.len() {
                    assert(bit_set(s0.masks[i], k as u32));
                    assert(s0.columns[k][i] is Some);
                    assert(self@.columns[k] == s0.columns[k]);
                } else {
                    assert(!bit_set(s0.masks[i], k as u32));
                    assert(false);
                }
            }
        }
    }

    /// Finds the lowest tombstoned slot and points the construction cursor at
    /// it; if every slot is live, appends a fresh slot (mask zero, no value in
    /// any column) and points the cursor there.  Returns the store itself so
    /// that attach calls can follow.
    pub fn create_entity(&mut self) -> (r: &mut Self)
        requires
            old(self)@.inv(),
        ensures
            (*r)@.inv(),
            (*r)@.kinds == old(self)@.kinds,
            (exists|i: int| 0 <= i < old(self)@.slot_count() && old(self)@.masks[i] == 0) ==> {
                &&& (*r)@.masks == old(self)@.masks
                &&& (*r)@.columns == old(self)@.columns
                &&& 0 <= (*r)@.cursor < (*r)@.slot_count()
                &&& old(self)@.masks[(*r)@.cursor] == 0
                &&& forall|j: int| 0 <= j < (*r)@.cursor ==> old(self)@.masks[j] != 0
            },
            (forall|i: int| 0 <= i < old(self)@.slot_count() ==> old(self)@.masks[i] != 0) ==> {
                &&& (*r)@.masks == old(self)@.masks.push(0u32)
                &&& (*r)@.columns == Seq::new(
                    old(self)@.columns.len(),
                    |k: int| old(self)@.columns[k].push(None),
                )
                &&& (*r)@.cursor == old(self)@.slot_count()
            },
            *final(self) == *final(r),
    {
        let ghost s0 = self@;
        let mut i: usize = 0;
        let mut found: bool = false;
        while i < self.masks.len() && !found
            invariant
                i <= self@.slot_count(),
                forall|j: int| 0 <= j < i ==> self@.masks[j] != 0,
                found ==> i < self@.slot_count() && self@.masks[i as int] == 0,
                *self == *old(self),
            decreases self@.slot_count() - i, (if found { 0int } else { 1int }),
        {
            if self.masks[i] == 0 {
                found = true;
            } else {
                i += 1;
            }
        }
        if found {
            self.cursor = i;
            proof {
                assert(self@.columns =~= s0.columns);
            }
        } else {
            let mut k: usize = 0;
            while k < self.columns.len()
                invariant
                    k <= self.columns@.len(),
                    self.columns@.len() == old(self).columns@.len(),
                    self.kinds == old(self).kinds,
                    self.masks == old(self).masks,
                    self.cursor == old(self).cursor,
                    forall|j: int|
                        0 <= j < k ==> (#[trigger] self.columns@[j])@ == old(
                            self,
                        ).columns@[j]@.push(None),
                    forall|j: int|
                        k <= j < self.columns@.len() ==> (#[trigger] self.columns@[j])@ == old(
                            self,
                        ).columns@[j]@,
                decreases self.columns@.len() - k,
            {
                self.columns[k].push(None);
                k += 1;
            }
            self.masks.push(0);
            self.cursor = self.masks.len() - 1;
            proof {
                assert(self@.columns =~= Seq::new(s0.columns.len(), |k: int| s0.columns[k].push(None)));
                assert forall|k: int, i: int|
                    0 <= k < self@.kinds.len() && 0 <= i < self@.slot_count() && bit_set(
                        self@.masks[i],
                        k as u32,
                    ) implies (self@.columns[k][i]) is Some by {
                    if i < s0.slot_count() {
                        assert(bit_set(s0.masks[i], k as u32));
                        assert(s0.columns[k][i] is Some);
                    } else {
                        lemma_zero_mask_empty(k as u32);
                        assert(false);
                    }
                }
                assert forall|i: int, b: int|
                    0 <= i < self@.slot_count() && self@.kinds.len() <= b < 32 implies !(
                #[trigger] bit_set(self@.masks[i], b as u32)) by {
                    if i < s0.slot_count() {
                        assert(!bit_set(s0.masks[i], b as u32));
                    } else {
                        lemma_zero_mask_empty(b as u32);
                    }
                }
            }
        }
        self
    }

    /// Writes `data` for the kind at registration position `pos` into `idx`
    /// and raises that kind's presence bit.
    fn set_component_at(&mut self, pos: usize, idx: usize, data: V)
        requires
            old(self)@.inv(),
            pos < old(self)@.num_kinds(),
            idx < old(self)@.slot_count(),
        ensures
            final(self)@.inv(),
            final(self)@.kinds == old(self)@.kinds,
            final(self)@.cursor == old(self)@.cursor,
            final(self)@.masks == old(self)@.masks.update(
                idx as int,
                old(self)@.masks[idx as int] | (1u32 << (pos as u32)),
            ),
            final(self)@.columns == old(self)@.columns.update(
                pos as int,
                old(self)@.columns[pos as int].update(idx as int, Some(data)),
            ),
    {
        let ghost s0 = self@;
        proof {
            assert(self@.columns[pos as int] == self.columns@[pos as int]@);
            assert(self@.columns[pos as int].len() == self@.slot_count());
        }
        self.columns[pos][idx] = Some(data);
        let m = self.masks[idx];
        self.masks[idx] = m | (1u32 << (pos as u32));
        proof {
            assert(self@.columns =~= s0.columns.update(
                pos as int,
                s0.columns[pos as int].update(idx as int, Some(data)),
            ));
            assert(self@.masks =~= s0.masks.update(
                idx as int,
                s0.masks[idx as int] | (1u32 << (pos as u32)),
            ));
            assert forall|k: int, i: int|
                0 <= k < self@.kinds.len() && 0 <= i < self@.slot_count() && bit_set(
                    self@.masks[i],
                    k as u32,
                ) implies (self@.columns[k][i]) is Some by {
                if i == idx as int {
                    if k == pos as int {
                        assert(self@.columns[k][i] == Some(data));
                    } else {
                        lemma_set_bit(s0.masks[i], pos as u32, k as u32);
                        assert(bit_set(s0.masks[i], k as u32));
                        assert(s0.columns[k][i] is Some);
                        assert(self@.columns[k][i] == s0.columns[k][i]);
                    }
                } else {
                    assert(bit_set(s0.masks[i], k as u32));
                    assert(s0.columns[k][i] is Some);
                    if k == pos as int {
                        assert(self@.columns[k][i] == s0.columns[k][i]);
                    }
                }
            }
            assert forall|i: int, b: int|
                0 <= i < self@.slot_count() && self@.kinds.len() <= b < 32 implies !(
            #[trigger] bit_set(self@.masks[i], b as u32)) by {
                assert(!bit_set(s0.masks[i], b as u32));
                if i == idx as int {
                    lemma_set_bit(s0.masks[i], pos as u32, b as u32);
                }
            }
        }
    }

    /// Writes `data` for `kind` into the slot under the construction cursor
    /// and raises the kind's presence bit there.  Fails with
    /// `KindNotRegistered` for an unknown kind and with
    /// `ConstructionCursorInvalid` when no entity was ever created.
    pub fn with_component(&mut self, kind: u64, data: V) -> (r: Result<(), EcsError>)
        requires
            old(self)@.inv(),
        ensures
            final(self)@.inv(),
            !old(self)@.is_registered(kind) ==> r == Err::<(), EcsError>(
                EcsError::KindNotRegistered,
            ) && final(self)@ == old(self)@,
            old(self)@.is_registered(kind) && old(self)@.cursor >= old(self)@.slot_count() ==> r
                == Err::<(), EcsError>(EcsError::ConstructionCursorInvalid) && final(self)@ == old(
                self,
            )@,
            old(self)@.is_registered(kind) && old(self)@.cursor < old(self)@.slot_count() ==> ({
                let s0 = old(self)@;
                &&& r == Ok::<(), EcsError>(())
                &&& final(self)@.kinds == s0.kinds
                &&& final(self)@.cursor == s0.cursor
                &&& final(self)@.masks == s0.masks.update(
                    s0.cursor,
                    s0.mask_at(s0.cursor) | s0.mask_of(kind),
                )
                &&& final(self)@.columns == s0.columns.update(
                    s0.kind_pos(kind),
                    s0.columns[s0.kind_pos(kind)].update(s0.cursor, Some(data)),
                )
            }),
    {
        let pos = match self.find_pos(kind) {
            Some(p) => p,
            None => {
                return Err(EcsError::KindNotRegistered);
            },
        };
        let idx = self.cursor;
        if idx >= self.masks.len() {
            return Err(EcsError::ConstructionCursorInvalid);
        }
        self.set_component_at(pos, idx, data);
        Ok(())
    }

    /// Writes `data` for `kind` into the explicit slot `index` and raises the
    /// kind's presence bit there.  Fails with `KindNotRegistered` for an
    /// unknown kind and with `SlotOutOfRange` for an index beyond the slots.
    pub fn add_component_to_entity_by_id(&mut self, kind: u64, data: V, index: usize) -> (r:
        Result<(), EcsError>)
        requires
            old(self)@.inv(),
        ensures
            final(self)@.inv(),
            !old(self)@.is_registered(kind) ==> r == Err::<(), EcsError>(
                EcsError::KindNotRegistered,
            ) && final(self)@ == old(self)@,
            old(self)@.is_registered(kind) && index >= old(self)@.slot_count() ==> r == Err::<
                (),
                EcsError,
            >(EcsError::SlotOutOfRange) && final(self)@ == old(self)@,
            old(self)@.is_registered(kind) && index < old(self)@.slot_count() ==> ({
                let s0 = old(self)@;
                &&& r == Ok::<(), EcsError>(())
                &&& final(self)@.kinds == s0.kinds
                &&& final(self)@.cursor == s0.cursor
                &&& final(self)@.masks == s0.masks.update(
                    index as int,
                    s0.mask_at(index as int) | s0.mask_of(kind),
                )
                &&& final(self)@.columns == s0.columns.update(
                    s0.kind_pos(kind),
                    s0.columns[s0.kind_pos(kind)].update(index as int, Some(data)),
                )
            }),
    {
        let pos = match self.find_pos(kind) {
            Some(p) => p,
            None => {
                return Err(EcsError::KindNotRegistered);
            },
        };
        if index >= self.masks.len() {
            return Err(EcsError::SlotOutOfRange);
        }
        self.set_component_at(pos, index, data);
        Ok(())
    }

    /// Lowers the presence bit of `kind` at `index` if it is up; the stored
    /// value is left in place but becomes unreachable through queries.  Fails
    /// with `KindNotRegistered` for an unknown kind and with `SlotOutOfRange`
    /// for an index beyond the slots.
    pub fn delete_component_by_entity_id(&mut self, kind: u64, index: usize) -> (r: Result<
        (),
        EcsError,
    >)
        requires
            old(self)@.inv(),
        ensures
            final(self)@.inv(),
            !old(self)@.is_registered(kind) ==> r == Err::<(), EcsError>(
                EcsError::KindNotRegistered,
            ) && final(self)@ == old(self)@,
            old(self)@.is_registered(kind) && index >= old(self)@.slot_count() ==> r == Err::<
                (),
                EcsError,
            >(EcsError::SlotOutOfRange) && final(self)@ == old(self)@,
            old(self)@.is_registered(kind) && index < old(self)@.slot_count() ==> ({
                let s0 = old(self)@;
                &&& r == Ok::<(), EcsError>(())
                &&& final(self)@.kinds == s0.kinds
                &&& final(self)@.cursor == s0.cursor
                &&& final(self)@.columns == s0.columns
                &&& final(self)@.masks == s0.masks.update(
                    index as int,
                    s0.mask_at(index as int) & !s0.mask_of(kind),
                )
            }),
    {
        let ghost s0 = self@;
        let pos = match self.find_pos(kind) {
            Some(p) => p,
            None => {
                return Err(EcsError::KindNotRegistered);
            },
        };
        if index >= self.masks.len() {
            return Err(EcsError::SlotOutOfRange);
        }
        let mask = 1u32 << (pos as u32);
        let m = self.masks[index];
        if self.has_component(index, mask) {
            self.masks[index] = m ^ mask;
            proof {
                assert(m ^ mask == m & !mask) by (bit_vector)
                    requires
                        m & mask == mask,
                ;
            }
        } else {
            proof {
                assert(m & !mask == m) by (bit_vector)
                    requires
                        m & mask != mask,
                        mask == 1u32 << (pos as u32),
                        pos < 32,
                ;
                assert(self@.masks =~= s0.masks.update(index as int, s0.masks[index as int] & !mask));
            }
        }
        proof {
            assert(self@.masks[index as int] == m & !mask);
            assert forall|k: u32|
                k < 32 && bit_set(self@.masks[index as int], k) implies bit_set(
                s0.masks[index as int],
                k,
            ) by {
                lemma_clear_bit(m, pos as u32, k);
                assert(s0.masks[index as int] == m);
            }
            self.lemma_inv_after_mask_weakened(s0, index as int);
        }
        Ok(())
    }

    /// Tombstones the slot: its presence mask becomes zero, so no query can
    /// reach it until it is reused.  The column entries are left in place.
    /// Fails with `EntityDoesNotExist` for an index beyond the slots.
    pub fn delete_entity_by_id(&mut self, index: usize) -> (r: Result<(), EcsError>)
        requires
            old(self)@.inv(),
        ensures
            final(self)@.inv(),
            index >= old(self)@.slot_count() ==> r == Err::<(), EcsError>(
                EcsError::EntityDoesNotExist,
            ) && final(self)@ == old(self)@,
            index < old(self)@.slot_count() ==> {
                &&& r == Ok::<(), EcsError>(())
                &&& final(self)@.kinds == old(self)@.kinds
                &&& final(self)@.cursor == old(self)@.cursor
                &&& final(self)@.columns == old(self)@.columns
                &&& final(self)@.masks == old(self)@.masks.update(index as int, 0u32)
            },
    {
        let ghost s0 = self@;
        if index >= self.masks.len() {
            return Err(EcsError::EntityDoesNotExist);
        }
        self.masks[index] = 0;
        proof {
            assert forall|k: u32| k < 32 implies !bit_set(self@.masks[index as int], k) by {
                lemma_zero_mask_empty(k);
                assert(self@.masks[index as int] == 0u32);
            }
            self.lemma_inv_after_mask_weakened(s0, index as int);
        }
        Ok(())
    }

    /// A mask update that sets no new bit keeps the store well-formed.
    proof fn lemma_inv_after_mask_weakened(&self, s0: StoreModel<V>, idx: int)
        requires
            s0.inv(),
            0 <= idx < s0.slot_count(),
            self@.kinds == s0.kinds,
            self@.columns == s0.columns,
            self@.masks.len() == s0.masks.len(),
            forall|i: int| 0 <= i < s0.slot_count() && i != idx ==> self@.masks[i] == s0.masks[i],
            forall|k: u32| k < 32 && bit_set(self@.masks[idx], k) ==> bit_set(s0.masks[idx], k),
        ensures
            self@.inv(),
    {
        assert forall|k: int, i: int|
            0 <= k < self@.kinds.len() && 0 <= i < self@.slot_count() && bit_set(
                self@.masks[i],
                k as u32,
            ) implies (self@.columns[k][i]) is Some by {
            assert(bit_set(s0.masks[i], k as u32));
        }
        assert forall|i: int, b: int|
            0 <= i < self@.slot_count() && self@.kinds.len() <= b < 32 implies !(
        #[trigger] bit_set(self@.masks[i], b as u32)) by {
            assert(!bit_set(s0.masks[i], b as u32));
        }
    }

    /// The slot holds live values for every kind whose bit is in `mask`.
    fn has_component(&self, index: usize, mask: u32) -> (r: bool)
        requires
            index < self@.slot_count(),
        ensures
            r == (self@.masks[index as int] & mask == mask),
    {
        self.masks[index] & mask == mask
    }

    /// How many entity slots exist, live or tombstoned.
    pub fn num_slots(&self) -> (r: usize)
        ensures
            r == self@.slot_count(),
    {
        self.masks.len()
    }

    /// The presence mask of the slot.
    pub fn slot_mask(&self, index: usize) -> (r: u32)
        requires
            index < self@.slot_count(),
        ensures
            r == self@.mask_at(index as int),
    {
        self.masks[index]
    }

    /// How many entries the column of `kind` holds; `None` for an unknown
    /// kind.
    pub fn column_len(&self, kind: u64) -> (r: Option<usize>)
        requires
            self@.inv(),
        ensures
            self@.is_registered(kind) ==> r == Some(
                self@.columns[self@.kind_pos(kind)].len() as usize,
            ),
            !self@.is_registered(kind) ==> r is None,
    {
        match self.find_pos(kind) {
            Some(p) => Some(self.columns[p].len()),
            None => None,
        }
    }

    /// The value stored for `kind` at `slot`, `None` when nothing was ever
    /// attached there or the kind is unknown.
    pub fn component_at(&self, kind: u64, slot: usize) -> (r: Option<V>) where V: Copy
        requires
            self@.inv(),
            slot < self@.slot_count(),
        ensures
            self@.is_registered(kind) ==> r == self@.value_at(kind, slot as int),
            !self@.is_registered(kind) ==> r is None,
    {
        match self.find_pos(kind) {
            Some(p) => self.columns[p][slot],
            None => None,
        }
    }

    /// The bitmask assigned to `kind`, or `None` if it was never registered.
    pub fn get_bitmask(&self, kind: u64) -> (r: Option<u32>)
        requires
            self@.inv(),
        ensures
            self@.is_registered(kind) ==> r == Some(self@.mask_of(kind)),
            !self@.is_registered(kind) ==> r is None,
    {
        match self.find_pos(kind) {
            Some(p) => Some(1u32 << (p as u32)),
            None => None,
        }
    }
}

} // verus!
