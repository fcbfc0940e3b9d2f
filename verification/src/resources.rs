//! The resource map: a key-indexed store of singleton values.
//!
//! Each resource is identified by a caller-chosen `u64` key and holds exactly
//! one value; adding under an existing key replaces the value.  The map is
//! viewed as a `Map<u64, V>`.

use vstd::prelude::*;

verus! {

/// The map described by parallel key and value sequences: a key maps to the
/// value at its (unique) position among the keys.
spec fn map_of<V>(keys: Seq<u64>, vals: Seq<V>) -> Map<u64, V> {
    Map::new(
        |k: u64| keys.contains(k),
        |k: u64| vals[choose|i: int| 0 <= i < keys.len() && keys[i] == k],
    )
}

/// With distinct keys, the position of a key is the one index that holds it.
proof fn lemma_key_pos_unique(keys: Seq<u64>, key: u64, p: int)
    requires
        forall|i: int, j: int| 0 <= i < j < keys.len() ==> keys[i] != keys[j],
        0 <= p < keys.len(),
        keys[p] == key,
    ensures
        keys.contains(key),
        (choose|i: int| 0 <= i < keys.len() && keys[i] == key) == p,
{
    assert(keys[p] == key);
    let q = choose|i: int| 0 <= i < keys.len() && keys[i] == key;
    if q != p {
        assert(keys[q] == key);
        assert(false);
    }
}

/// A map from a caller-chosen `u64` key to one value of that key's kind.
pub struct Resource<V> {
    keys: Vec<u64>,
    vals: Vec<V>,
}

impl<V> View for Resource<V> {
    type V = Map<u64, V>;

    closed spec fn view(&self) -> Map<u64, V> {
        map_of(self.keys@, self.vals@)
    }
}

impl<V> Default for Resource<V> {
    /// The same map as [`Resource::new`] returns.
    fn default() -> (r: Self)
        ensures
            r.inv(),
            r@ == Map::<u64, V>::empty(),
    {
        Resource::new()
    }
}

impl<V> Resource<V> {
    /// Keys are pairwise distinct and aligned with their values.
    pub closed spec fn inv(self) -> bool {
        &&& self.keys@.len() == self.vals@.len()
        &&& forall|i: int, j: int|
            0 <= i < j < self.keys@.len() ==> self.keys@[i] != self.keys@[j]
    }

    /// An empty resource map.
    pub fn new() -> (r: Self)
        ensures
            r.inv(),
            r@ == Map::<u64, V>::empty(),
    {
        let r = Resource { keys: Vec::new(), vals: Vec::new() };
        proof {
            assert(r@ =~= Map::<u64, V>::empty());
        }
        r
    }

    /// The position of `key`, if it is present.
    fn find_key(&self, key: u64) -> (r: Option<usize>)
        requires
            self.inv(),
        ensures
            r is Some <==> self@.dom().contains(key),
            r matches Some(p) ==> p < self.keys@.len() && self.keys@[p as int] == key && (
            choose|i: int| 0 <= i < self.keys@.len() && self.keys@[i] == key) == p,
    {
        let mut j: usize = 0;
        while j < self.keys.len()
            invariant
                self.inv(),
                j <= self.keys@.len(),
                forall|i: int| 0 <= i < j ==> self.keys@[i] != key,
            decreases self.keys@.len() - j,
        {
            if self.keys[j] == key {
                proof {
                    lemma_key_pos_unique(self.keys@, key, j as int);
                }
                return Some(j);
            }
            j += 1;
        }
        proof {
            assert(!self.keys@.contains(key));
        }
        None
    }

    /// Whether a resource is stored under `key`.
    pub fn contains(&self, key: u64) -> (r: bool)
        requires
            self.inv(),
        ensures
            r == self@.dom().contains(key),
    {
        self.find_key(key).is_some()
    }

    /// Stores `data` under `key`, replacing any value already there.
    pub fn add(&mut self, key: u64, data: V)
        requires
            old(self).inv(),
        ensures
            final(self).inv(),
            final(self)@ == old(self)@.insert(key, data),
    {
        let ghost keys0 = self.keys@;
        let ghost vals0 = self.vals@;
        match self.find_key(key) {
            Some(p) => {
                self.vals[p] = data;
                proof {
                    assert forall|k: u64| #[trigger]
                        self@.dom().contains(k) || old(self)@.insert(key, data).dom().contains(
                            k,
                        ) implies self@.contains_key(k) && old(self)@.insert(key, data).contains_key(
                        k,
                    ) && self@[k] == old(self)@.insert(key, data)[k] by {
                        let i = choose|i: int| 0 <= i < keys0.len() && keys0[i] == k;
                        if k == key {
                            lemma_key_pos_unique(keys0, key, p as int);
                        } else {
                            assert(keys0.contains(k));
                            assert(keys0[i] == k);
                            assert(i != p as int);
                        }
                    }
                    assert(self@ =~= old(self)@.insert(key, data));
                }
            },
            None => {
                self.keys.push(key);
                self.vals.push(data);
                proof {
                    assert forall|i: int, j: int|
                        0 <= i < j < self.keys@.len() implies self.keys@[i] != self.keys@[j] by {
                        if j == self.keys@.len() - 1 {
                            assert(keys0.contains(self.keys@[i]) || i == j);
                        }
                    }
                    assert forall|k: u64| #[trigger]
                        self@.dom().contains(k) || old(self)@.insert(key, data).dom().contains(
                            k,
                        ) implies self@.contains_key(k) && old(self)@.insert(key, data).contains_key(
                        k,
                    ) && self@[k] == old(self)@.insert(key, data)[k] by {
                        if k == key {
                            lemma_key_pos_unique(self.keys@, key, keys0.len() as int);
                        } else {
                            if keys0.contains(k) {
                                let i = choose|i: int| 0 <= i < keys0.len() && keys0[i] == k;
                                lemma_key_pos_unique(self.keys@, k, i);
                            } else {
                                if self.keys@.contains(k) {
                                    let i = choose|i: int|
                                        0 <= i < self.keys@.len() && self.keys@[i] == k;
                                    assert(i == keys0.len());
                                    assert(false);
                                }
                            }
                        }
                    }
                    assert(self@ =~= old(self)@.insert(key, data));
                }
            },
        }
    }

    /// A reference to the resource under `key`, or `None` if there is none.
    pub fn get_ref(&self, key: u64) -> (r: Option<&V>)
        requires
            self.inv(),
        ensures
            r is Some <==> self@.dom().contains(key),
            r matches Some(v) ==> *v == self@[key],
    {
        match self.find_key(key) {
            Some(p) => Some(&self.vals[p]),
            None => None,
        }
    }

    /// A mutable reference to the resource under `key`; the map afterwards
    /// holds whatever value the caller leaves behind the reference.
    pub fn get_mut(&mut self, key: u64) -> (r: &mut V)
        requires
            old(self).inv(),
            old(self)@.dom().contains(key),
        ensures
            final(self).inv(),
            *r == old(self)@[key],
            final(self)@ == old(self)@.insert(key, *final(r)),
    {
        let ghost keys0 = self.keys@;
        let ghost vals0 = self.vals@;
        let p = match self.find_key(key) {
            Some(p) => p,
            None => {
                proof {
                    assert(false);
                }
                0
            },
        };
        proof {
            assert forall|w: V| #[trigger]
                map_of(keys0, vals0.update(p as int, w)) == map_of(keys0, vals0).insert(
                    key,
                    w,
                ) by {
                let m1 = map_of(keys0, vals0.update(p as int, w));
                let m2 = map_of(keys0, vals0).insert(key, w);
                assert forall|k: u64| m1.dom().contains(k) || m2.dom().contains(
                    k,
                ) implies m1.contains_key(k) && m2.contains_key(k) && m1[k] == m2[k] by {
                    if k == key {
                        lemma_key_pos_unique(keys0, key, p as int);
                    } else {
                        assert(keys0.contains(k));
                        let i = choose|i: int| 0 <= i < keys0.len() && keys0[i] == k;
                        assert(keys0[i] == k);
                        assert(i != p as int);
                    }
                }
                assert(m1 =~= m2);
            }
        }
        &mut self.vals[p]
    }

    /// Discards the resource under `key`, if any.
    pub fn remove(&mut self, key: u64)
        requires
            old(self).inv(),
        ensures
            final(self).inv(),
            final(self)@ == old(self)@.remove(key),
    {
        let ghost keys0 = self.keys@;
        let ghost vals0 = self.vals@;
        match self.find_key(key) {
            Some(p) => {
                self.keys.remove(p);
                self.vals.remove(p);
                proof {
                    assert forall|i: int, j: int|
                        0 <= i < j < self.keys@.len() implies self.keys@[i] != self.keys@[j] by {
                        assert(self.keys@[i] == keys0[if i < p as int {
                            i
                        } else {
                            i + 1
                        }]);
                        assert(self.keys@[j] == keys0[if j < p as int {
                            j
                        } else {
                            j + 1
                        }]);
                    }
                    assert forall|k: u64| #[trigger]
                        self@.dom().contains(k) || old(self)@.remove(key).dom().contains(
                            k,
                        ) implies self@.contains_key(k) && old(self)@.remove(key).contains_key(k)
                        && self@[k] == old(self)@.remove(key)[k] by {
                        if self.keys@.contains(k) {
                            let i = choose|i: int|
                                0 <= i < self.keys@.len() && self.keys@[i] == k;
                            let oi: int = if i < p as int {
                                i
                            } else {
                                i + 1
                            };
                            assert(keys0[oi] == k);
                            lemma_key_pos_unique(keys0, k, oi);
                            lemma_key_pos_unique(self.keys@, k, i);
                            if k == key {
                                assert(oi == p as int);
                                assert(false);
                            }
                            assert(self@[k] == self.vals@[i]);
                            assert(self.vals@[i] == vals0[oi]);
                        } else {
                            if keys0.contains(k) && k != key {
                                let oi = choose|i: int| 0 <= i < keys0.len() && keys0[i] == k;
                                lemma_key_pos_unique(keys0, key, p as int);
                                let ni: int = if oi < p as int {
                                    oi
                                } else {
                                    oi - 1
                                };
                                assert(self.keys@[ni] == keys0[oi]);
                                assert(self.keys@.contains(k));
                                assert(false);
                            }
                        }
                    }
                    assert(self@ =~= old(self)@.remove(key));
                }
            },
            None => {
                proof {
                    assert(self@ =~= old(self)@.remove(key));
                }
            },
        }
    }
}

} // verus!
