//! One logical database: a keyed map from byte-string keys to values
//! with optional absolute expiry, deleting expired entries lazily on
//! access.
//!
//! The map is held as a vector of entries with pairwise-distinct keys;
//! its mathematical value is the `Map` those entries spell. Insertion
//! order is not observable through the contracts, as the protocol
//! demands.

use vstd::prelude::*;

use crate::resp::bytes_view;
use crate::resp::clone_bytes;
use crate::resp::eq_bytes;

verus! {

/// A stored value: an opaque payload and an optional absolute expiry,
/// in milliseconds since the epoch. No expiry means the value never
/// expires.
#[derive(Clone, Debug)]
pub struct Value {
    pub value: Vec<u8>,
    pub expiry: Option<u64>,
}

/// The mathematical value of a [`Value`].
pub ghost struct ValueV {
    pub value: Seq<u8>,
    pub expiry: Option<u64>,
}

impl View for Value {
    type V = ValueV;

    open spec fn view(&self) -> ValueV {
        ValueV { value: self.value@, expiry: self.expiry }
    }
}

/// A value is live at `now` unless its expiry has been reached: a key
/// whose expiry is at or before `now` is logically absent.
pub open spec fn live(v: ValueV, now: u64) -> bool {
    match v.expiry {
        None => true,
        Some(t) => t > now,
    }
}

/// The map spelled by a run of entries, later entries winning.
pub open spec fn map_of(s: Seq<(Seq<u8>, ValueV)>) -> Map<Seq<u8>, ValueV>
    decreases s.len(),
{
    if s.len() == 0 {
        Map::empty()
    } else {
        map_of(s.drop_last()).insert(s.last().0, s.last().1)
    }
}

/// A key stands in the spelled map exactly when some entry holds it.
proof fn lemma_map_of_contains(s: Seq<(Seq<u8>, ValueV)>, k: Seq<u8>)
    ensures
        map_of(s).contains_key(k) <==> exists|i: int| 0 <= i < s.len() && (#[trigger] s[i]).0 == k,
    decreases s.len(),
{
    if s.len() == 0 {
    } else {
        lemma_map_of_contains(s.drop_last(), k);
        if map_of(s).contains_key(k) {
            if s.last().0 == k {
                assert(s[s.len() - 1].0 == k);
            } else {
                let i = choose|i: int|
                    0 <= i < s.drop_last().len() && (#[trigger] s.drop_last()[i]).0 == k;
                assert(s[i].0 == k);
            }
        }
        if exists|i: int| 0 <= i < s.len() && (#[trigger] s[i]).0 == k {
            let i = choose|i: int| 0 <= i < s.len() && (#[trigger] s[i]).0 == k;
            if i < s.len() - 1 {
                assert(s.drop_last()[i].0 == k);
            }
        }
    }
}

/// Entry keys are pairwise distinct.
pub open spec fn entries_wf(s: Seq<(Seq<u8>, ValueV)>) -> bool {
    forall|i: int, j: int| 0 <= i < j < s.len() ==> (#[trigger] s[i]).0 != (#[trigger] s[j]).0
}

/// With distinct keys, the entry holding a key gives its value in the
/// spelled map.
proof fn lemma_map_of_index(s: Seq<(Seq<u8>, ValueV)>, i: int)
    requires
        entries_wf(s),
        0 <= i < s.len(),
    ensures
        map_of(s).contains_key(s[i].0),
        map_of(s)[s[i].0] == s[i].1,
    decreases s.len(),
{
    lemma_map_of_contains(s, s[i].0);
    if i == s.len() - 1 {
    } else {
        assert(entries_wf(s.drop_last())) by {
            assert forall|a: int, b: int|
                0 <= a < b < s.drop_last().len() implies (#[trigger] s.drop_last()[a]).0 != (
            #[trigger] s.drop_last()[b]).0 by {
                assert(s[a].0 != s[b].0);
            }
        }
        assert(s.drop_last()[i] == s[i]);
        lemma_map_of_index(s.drop_last(), i);
        assert(s[i].0 != s.last().0);
    }
}

/// With distinct keys, removing the entry that holds a key removes
/// exactly that key from the spelled map.
proof fn lemma_map_of_remove(s: Seq<(Seq<u8>, ValueV)>, i: int)
    requires
        entries_wf(s),
        0 <= i < s.len(),
    ensures
        map_of(s.remove(i)) == map_of(s).remove(s[i].0),
    decreases s.len(),
{
    let k = s[i].0;
    if i == s.len() - 1 {
        assert(s.remove(i) =~= s.drop_last());
        lemma_map_of_contains(s.drop_last(), k);
        assert forall|j: int| 0 <= j < s.drop_last().len() implies (#[trigger] s.drop_last()[j]).0
            != k by {
            assert(s[j].0 != s[i].0);
        }
        assert(!map_of(s.drop_last()).contains_key(k));
        assert(map_of(s.drop_last()).insert(k, s.last().1).remove(k) =~= map_of(s.drop_last()));
    } else {
        assert(entries_wf(s.drop_last())) by {
            assert forall|a: int, b: int|
                0 <= a < b < s.drop_last().len() implies (#[trigger] s.drop_last()[a]).0 != (
            #[trigger] s.drop_last()[b]).0 by {
                assert(s[a].0 != s[b].0);
            }
        }
        assert(s.drop_last()[i] == s[i]);
        lemma_map_of_remove(s.drop_last(), i);
        assert(s.remove(i).drop_last() =~= s.drop_last().remove(i));
        assert(s.remove(i).last() == s.last());
        assert(k != s.last().0) by {
            assert(s[i].0 != s[s.len() - 1].0);
        }
        assert(map_of(s.drop_last()).remove(k).insert(s.last().0, s.last().1) =~= map_of(
            s.drop_last(),
        ).insert(s.last().0, s.last().1).remove(k));
    }
}

/// Every key of `m` stands somewhere in `keys`.
pub open spec fn keys_complete(m: Map<Seq<u8>, ValueV>, keys: Seq<Seq<u8>>) -> bool {
    forall|k: Seq<u8>| m.contains_key(k) ==> exists|i: int|
        0 <= i < keys.len() && #[trigger] keys[i] == k
}

/// Everything in `keys` is a key of `m`.
pub open spec fn keys_sound(m: Map<Seq<u8>, ValueV>, keys: Seq<Seq<u8>>) -> bool {
    forall|i: int| 0 <= i < keys.len() ==> m.contains_key(#[trigger] keys[i])
}

/// No key is listed twice.
pub open spec fn keys_distinct(keys: Seq<Seq<u8>>) -> bool {
    forall|i: int, j: int| 0 <= i < j < keys.len() ==> #[trigger] keys[i] != #[trigger] keys[j]
}

/// One logical database.
#[derive(Debug)]
pub struct Database {
    entries: Vec<(Vec<u8>, Value)>,
}

impl View for Database {
    type V = Map<Seq<u8>, ValueV>;

    closed spec fn view(&self) -> Map<Seq<u8>, ValueV> {
        map_of(self.entries_view())
    }
}

impl Database {
    /// The run of entries, as mathematical values.
    pub closed spec fn entries_view(&self) -> Seq<(Seq<u8>, ValueV)> {
        Seq::new(self.entries@.len(), |i: int| (self.entries@[i].0@, self.entries@[i].1@))
    }

    /// The keys on hand are pairwise distinct.
    pub closed spec fn wf(&self) -> bool {
        entries_wf(self.entries_view())
    }

    /// An empty database.
    pub fn new() -> (r: Database)
        ensures
            r.wf(),
            r@ == Map::<Seq<u8>, ValueV>::empty(),
    {
        let r = Database { entries: Vec::new() };
        proof {
            assert(r.entries_view() =~= Seq::<(Seq<u8>, ValueV)>::empty());
        }
        r
    }

    /// The index of the entry holding `key`, if any.
    #[verifier::loop_isolation(false)]
    fn find(&self, key: &Vec<u8>) -> (r: Option<usize>)
        requires
            self.wf(),
        ensures
            match r {
                Some(i) => i < self.entries_view().len() && self.entries_view()[i as int].0 == key@
                    && self@.contains_key(key@) && self@[key@] == self.entries_view()[i as int].1,
                None => !self@.contains_key(key@),
            },
    {
        let mut i: usize = 0;
        while i < self.entries.len()
            invariant
                i <= self.entries@.len(),
                forall|j: int| 0 <= j < i ==> (#[trigger] self.entries_view()[j]).0 != key@,
            decreases self.entries@.len() - i,
        {
            if eq_bytes(&self.entries[i].0, key) {
                proof {
                    assert(self.entries_view()[i as int].0 == key@);
                    lemma_map_of_index(self.entries_view(), i as int);
                }
                return Some(i);
            }
            proof {
                assert(self.entries_view()[i as int].0 == self.entries@[i as int].0@);
            }
            i = i + 1;
        }
        proof {
            lemma_map_of_contains(self.entries_view(), key@);
        }
        None
    }

    /// Binds `key` to `value`, replacing any entry it had.
    pub fn set(&mut self, key: Vec<u8>, value: Value)
        requires
            old(self).wf(),
        ensures
            final(self).wf(),
            final(self)@ == old(self)@.insert(key@, value@),
    {
        let ghost pre = self.entries_view();
        let found = self.find(&key);
        match found {
            Some(i) => {
                self.entries.remove(i);
                proof {
                    assert(self.entries_view() =~= pre.remove(i as int));
                    lemma_map_of_remove(pre, i as int);
                    assert(entries_wf(pre.remove(i as int))) by {
                        assert forall|a: int, b: int|
                            0 <= a < b < pre.remove(i as int).len() implies (#[trigger] pre.remove(
                            i as int,
                        )[a]).0 != (#[trigger] pre.remove(i as int)[b]).0 by {
                            let a0 = if a < i { a } else { a + 1 };
                            let b0 = if b < i { b } else { b + 1 };
                            assert(pre.remove(i as int)[a] == pre[a0]);
                            assert(pre.remove(i as int)[b] == pre[b0]);
                            assert(pre[a0].0 != pre[b0].0);
                        }
                    }
                    lemma_map_of_contains(pre.remove(i as int), key@);
                }
            },
            None => {},
        }
        let ghost mid = self.entries_view();
        proof {
            lemma_map_of_contains(mid, key@);
            assert(!map_of(mid).contains_key(key@));
            assert(forall|j: int| 0 <= j < mid.len() ==> (#[trigger] mid[j]).0 != key@);
        }
        self.entries.push((key, value));
        proof {
            assert(self.entries_view() =~= mid.push((key@, value@)));
            assert(self.entries_view().drop_last() =~= mid);
            assert(map_of(self.entries_view()) == map_of(mid).insert(key@, value@));
            assert(entries_wf(self.entries_view())) by {
                assert forall|a: int, b: int|
                    0 <= a < b < self.entries_view().len() implies (#[trigger] self.entries_view()[a]).0
                    != (#[trigger] self.entries_view()[b]).0 by {
                    if b < self.entries_view().len() - 1 {
                        assert(mid[a].0 != mid[b].0);
                    } else {
                        assert(mid[a].0 != key@);
                    }
                }
            }
            assert(final(self)@ =~= old(self)@.insert(key@, value@)) by {
                match found {
                    Some(i) => {
                        assert(map_of(pre).remove(key@).insert(key@, value@) =~= map_of(
                            pre,
                        ).insert(key@, value@));
                    },
                    None => {},
                }
            }
        }
    }

    /// Deletes the entry for `key` if it has expired by `now`: the lazy
    /// half of expiry. Live and absent keys are left alone.
    pub fn delete_key_if_expired(&mut self, key: &Vec<u8>, now: u64)
        requires
            old(self).wf(),
        ensures
            final(self).wf(),
            final(self)@ == if old(self)@.contains_key(key@) && !live(old(self)@[key@], now) {
                old(self)@.remove(key@)
            } else {
                old(self)@
            },
    {
        let ghost pre = self.entries_view();
        match self.find(key) {
            Some(i) => {
                let expired = match self.entries[i].1.expiry {
                    Some(t) => t <= now,
                    None => false,
                };
                proof {
                    assert(self.entries_view()[i as int].1 == self.entries@[i as int].1@);
                }
                if expired {
                    self.entries.remove(i);
                    proof {
                        assert(self.entries_view() =~= pre.remove(i as int));
                        lemma_map_of_remove(pre, i as int);
                        assert(entries_wf(pre.remove(i as int))) by {
                            assert forall|a: int, b: int|
                                0 <= a < b < pre.remove(i as int).len() implies (
                            #[trigger] pre.remove(i as int)[a]).0 != (#[trigger] pre.remove(
                                i as int,
                            )[b]).0 by {
                                let a0 = if a < i { a } else { a + 1 };
                                let b0 = if b < i { b } else { b + 1 };
                                assert(pre.remove(i as int)[a] == pre[a0]);
                                assert(pre.remove(i as int)[b] == pre[b0]);
                                assert(pre[a0].0 != pre[b0].0);
                            }
                        }
                    }
                }
            },
            None => {},
        }
    }

    /// Looks `key` up at time `now`. A live value is returned and the
    /// database is unchanged; an expired one is deleted and `None` is
    /// returned, exactly as for an absent key.
    pub fn get(&mut self, key: &Vec<u8>, now: u64) -> (r: Option<Vec<u8>>)
        requires
            old(self).wf(),
        ensures
            final(self).wf(),
            old(self)@.contains_key(key@) && live(old(self)@[key@], now) ==> (r matches Some(v)
                && v@ == old(self)@[key@].value && final(self)@ == old(self)@),
            old(self)@.contains_key(key@) && !live(old(self)@[key@], now) ==> r is None
                && final(self)@ == old(self)@.remove(key@),
            !old(self)@.contains_key(key@) ==> r is None && final(self)@ == old(self)@,
    {
        self.delete_key_if_expired(key, now);
        match self.find(key) {
            Some(i) => {
                proof {
                    assert(self.entries_view()[i as int].1 == self.entries@[i as int].1@);
                }
                Some(clone_bytes(&self.entries[i].1.value))
            },
            None => None,
        }
    }

    /// Every key on hand, each exactly once, expired entries included:
    /// listing keys does not force expiry.
    #[verifier::loop_isolation(false)]
    pub fn keys(&self) -> (r: Vec<Vec<u8>>)
        requires
            self.wf(),
        ensures
            keys_complete(self@, bytes_view(r@)),
            keys_sound(self@, bytes_view(r@)),
            keys_distinct(bytes_view(r@)),
    {
        let mut r: Vec<Vec<u8>> = Vec::new();
        let mut i: usize = 0;
        while i < self.entries.len()
            invariant
                i <= self.entries@.len(),
                r@.len() == i,
                forall|j: int| 0 <= j < i ==> (#[trigger] r@[j])@ == self.entries_view()[j].0,
            decreases self.entries@.len() - i,
        {
            r.push(clone_bytes(&self.entries[i].0));
            proof {
                assert(self.entries_view()[i as int].0 == self.entries@[i as int].0@);
            }
            i = i + 1;
        }
        proof {
            assert forall|k: Seq<u8>| self@.contains_key(k) implies exists|j: int|
                0 <= j < bytes_view(r@).len() && #[trigger] bytes_view(r@)[j] == k by {
                lemma_map_of_contains(self.entries_view(), k);
                let j = choose|j: int|
                    0 <= j < self.entries_view().len() && (#[trigger] self.entries_view()[j]).0
                        == k;
                assert(bytes_view(r@)[j] == k);
            }
            assert forall|j: int| 0 <= j < bytes_view(r@).len() implies self@.contains_key(
                #[trigger] bytes_view(r@)[j],
            ) by {
                lemma_map_of_contains(self.entries_view(), r@[j]@);
                assert(self.entries_view()[j].0 == r@[j]@);
                assert(bytes_view(r@)[j] == r@[j]@);
            }
            assert forall|i: int, j: int|
                0 <= i < j < bytes_view(r@).len() implies #[trigger] bytes_view(r@)[i]
                != #[trigger] bytes_view(r@)[j] by {
                assert(bytes_view(r@)[i] == r@[i]@);
                assert(bytes_view(r@)[j] == r@[j]@);
            }
        }
        r
    }
}

/// Idempotent lazy expiry: once one read of an expired key has deleted
/// it, the key is absent, so by [`Database::get`]'s contract any later
/// read misses and leaves the database exactly as it stands — deleting
/// an expired entry twice is the same as deleting it once.
pub proof fn lemma_lazy_expiry_idempotent(m: Map<Seq<u8>, ValueV>, k: Seq<u8>)
    ensures
        !m.remove(k).contains_key(k),
        m.remove(k).remove(k) == m.remove(k),
{
    assert(m.remove(k).remove(k) =~= m.remove(k));
}

/// Expiry monotonicity: a value set with a deadline is live at exactly
/// the instants before the deadline, so a read before it returns the
/// value and a read at or past it misses — the condition
/// [`Database::get`] dispatches on.
pub proof fn lemma_expiry_monotonic(v: ValueV, deadline: u64, t: u64)
    requires
        v.expiry == Some(deadline),
    ensures
        t < deadline <==> live(v, t),
{
}

} // verus!
