//! A map keyed by outpoints.
//!
//! Entries are kept in buckets, which are found by the first eight bytes of the transaction id.
//! The view of the map is the plain map from outpoints to values.
use std::collections::HashMap;

use vstd::prelude::*;
use vstd::std_specs::iter::IteratorSpec;

use crate::tx::Outpoint;

verus! {

broadcast use vstd::std_specs::hash::group_hash_axioms;

/// The bucket of an outpoint: the first eight bytes of its transaction id.
pub open spec fn bucket_key(outpoint: Outpoint) -> u64 {
    let id = outpoint.transaction_id@;
    (id[0] as u64) | (id[1] as u64) << 8 | (id[2] as u64) << 16 | (id[3] as u64) << 24
        | (id[4] as u64) << 32 | (id[5] as u64) << 40 | (id[6] as u64) << 48 | (id[7] as u64) << 56
}

/// Finds the bucket of an outpoint.
fn bucket_of(outpoint: &Outpoint) -> (key: u64)
    ensures
        key == bucket_key(*outpoint),
{
    let id = &outpoint.transaction_id;
    (id[0] as u64) | (id[1] as u64) << 8 | (id[2] as u64) << 16 | (id[3] as u64) << 24
        | (id[4] as u64) << 32 | (id[5] as u64) << 40 | (id[6] as u64) << 48 | (id[7] as u64) << 56
}

/// Whether a bucket has an entry for the outpoint.
spec fn bucket_holds<V>(bucket: Seq<(Outpoint, V)>, outpoint: Outpoint) -> bool {
    exists|i: int| 0 <= i < bucket.len() && (#[trigger] bucket[i]).0 == outpoint
}

/// The value of the entry that a bucket has for the outpoint.
spec fn bucket_value<V>(bucket: Seq<(Outpoint, V)>, outpoint: Outpoint) -> V {
    bucket[choose|i: int| 0 <= i < bucket.len() && (#[trigger] bucket[i]).0 == outpoint].1
}

/// Every entry of a bucket belongs there, and no outpoint has two.
spec fn bucket_valid<V>(bucket: Seq<(Outpoint, V)>, key: u64) -> bool {
    &&& forall|i: int| 0 <= i < bucket.len() ==> bucket_key((#[trigger] bucket[i]).0) == key
    &&& forall|i: int, j: int|
        0 <= i < j < bucket.len() ==> (#[trigger] bucket[i]).0 != (#[trigger] bucket[j]).0
}

/// A map from outpoints to values.
pub struct OutpointMap<V> {
    buckets: HashMap<u64, Vec<(Outpoint, V)>>,
    count: usize,
}

impl<V: Copy> View for OutpointMap<V> {
    type V = Map<Outpoint, V>;

    closed spec fn view(&self) -> Map<Outpoint, V> {
        contents(self.buckets@)
    }
}

/// The entries of all buckets.
spec fn contents<V>(buckets: Map<u64, Vec<(Outpoint, V)>>) -> Map<Outpoint, V> {
    Map::new(
        |outpoint: Outpoint|
            buckets.contains_key(bucket_key(outpoint)) && bucket_holds(
                buckets[bucket_key(outpoint)]@,
                outpoint,
            ),
        |outpoint: Outpoint| bucket_value(buckets[bucket_key(outpoint)]@, outpoint),
    )
}

/// An entry of a valid bucket gives the value of its outpoint.
proof fn bucket_entry<V>(bucket: Seq<(Outpoint, V)>, key: u64, i: int)
    requires
        bucket_valid(bucket, key),
        0 <= i < bucket.len(),
    ensures
        bucket_holds(bucket, bucket[i].0),
        bucket_value(bucket, bucket[i].0) == bucket[i].1,
{
    let outpoint = bucket[i].0;
    let j = choose|j: int| 0 <= j < bucket.len() && (#[trigger] bucket[j]).0 == outpoint;
    assert(bucket[i].0 == outpoint);
    if j < i {
        assert(bucket[j].0 != bucket[i].0);
    } else if i < j {
        assert(bucket[i].0 != bucket[j].0);
    }
}

/// Where two buckets differ in the entry of one outpoint alone, the others have the same values.
proof fn others_stay<V>(
    old_bucket: Seq<(Outpoint, V)>,
    bucket: Seq<(Outpoint, V)>,
    key: u64,
    outpoint: Outpoint,
)
    requires
        bucket_valid(old_bucket, key),
        bucket_valid(bucket, key),
        old_bucket.len() <= bucket.len(),
        forall|j: int|
            0 <= j < bucket.len() && (#[trigger] bucket[j]).0 != outpoint ==> j < old_bucket.len()
                && bucket[j] == old_bucket[j],
        forall|j: int|
            0 <= j < old_bucket.len() && (#[trigger] old_bucket[j]).0 != outpoint ==> bucket[j]
                == old_bucket[j],
    ensures
        forall|o: Outpoint|
            o != outpoint ==> (#[trigger] bucket_holds(bucket, o) <==> bucket_holds(
                old_bucket,
                o,
            )) && (bucket_holds(old_bucket, o) ==> bucket_value(bucket, o) == bucket_value(
                old_bucket,
                o,
            )),
{
    assert forall|o: Outpoint| o != outpoint implies (#[trigger] bucket_holds(bucket, o)
        <==> bucket_holds(old_bucket, o)) && (bucket_holds(old_bucket, o) ==> bucket_value(
        bucket,
        o,
    ) == bucket_value(old_bucket, o)) by {
        if bucket_holds(old_bucket, o) {
            let j = choose|j: int|
                0 <= j < old_bucket.len() && (#[trigger] old_bucket[j]).0 == o;
            assert(bucket[j] == old_bucket[j]);
            bucket_entry(old_bucket, key, j);
            bucket_entry(bucket, key, j);
        }
        if bucket_holds(bucket, o) {
            let j = choose|j: int| 0 <= j < bucket.len() && (#[trigger] bucket[j]).0 == o;
            assert(bucket[j] == old_bucket[j]);
        }
    }
}

impl<V: Copy> OutpointMap<V> {
    /// Every bucket is valid, and `count` is the number of entries.
    pub closed spec fn well_formed(&self) -> bool {
        &&& forall|key: u64| #[trigger]
            self.buckets@.contains_key(key) ==> bucket_valid(self.buckets@[key]@, key)
        &&& self@.dom().finite()
        &&& self@.dom().len() == self.count
    }

    /// The empty map.
    pub fn new() -> (map: Self)
        ensures
            map.well_formed(),
            map@ == Map::<Outpoint, V>::empty(),
    {
        let map = OutpointMap { buckets: HashMap::new(), count: 0 };
        assert(map@ =~= Map::<Outpoint, V>::empty());
        map
    }

    /// How many entries there are.
    pub fn len(&self) -> (len: usize)
        requires
            self.well_formed(),
        ensures
            len == self@.dom().len(),
    {
        self.count
    }

    /// There are finitely many entries.
    pub proof fn is_finite(&self)
        requires
            self.well_formed(),
        ensures
            self@.dom().finite(),
    {
    }

    /// Finds the entry of an outpoint in a bucket.
    fn find(bucket: &Vec<(Outpoint, V)>, outpoint: &Outpoint) -> (position: Option<usize>)
        ensures
            match position {
                Some(i) => i < bucket.len() && bucket[i as int].0 == *outpoint,
                None => !bucket_holds(bucket@, *outpoint),
            },
    {
        let mut i: usize = 0;
        while i < bucket.len()
            invariant
                0 <= i <= bucket.len(),
                forall|j: int| 0 <= j < i ==> (#[trigger] bucket[j]).0 != *outpoint,
            decreases bucket.len() - i,
        {
            if bucket[i].0.same(outpoint) {
                return Some(i);
            }
            i += 1;
        }
        None
    }

    /// Whether there is an entry for the outpoint.
    pub fn contains(&self, outpoint: &Outpoint) -> (found: bool)
        requires
            self.well_formed(),
        ensures
            found == self@.contains_key(*outpoint),
    {
        match self.buckets.get(&bucket_of(outpoint)) {
            Some(bucket) => match Self::find(bucket, outpoint) {
                Some(i) => {
                    assert(bucket@[i as int].0 == *outpoint);
                    true
                },
                None => false,
            },
            None => false,
        }
    }

    /// Sets the value of an outpoint.
    pub fn insert(&mut self, outpoint: Outpoint, value: V)
        requires
            old(self).well_formed(),
            old(self)@.dom().len() < usize::MAX,
        ensures
            final(self).well_formed(),
            final(self)@ == old(self)@.insert(outpoint, value),
    {
        let ghost before = self@;
        let ghost buckets = self.buckets@;
        let key = bucket_of(&outpoint);
        let mut bucket = match self.buckets.remove(&key) {
            Some(bucket) => bucket,
            None => Vec::new(),
        };
        let ghost old_bucket = bucket@;
        assert(bucket_valid(old_bucket, key));
        assert(forall|o: Outpoint|
            bucket_key(o) == key ==> (before.contains_key(o) <==> bucket_holds(old_bucket, o)));
        match Self::find(&bucket, &outpoint) {
            Some(i) => {
                proof {
                    bucket_entry(old_bucket, key, i as int);
                }
                bucket.set(i, (outpoint, value));
                proof {
                    assert(bucket_valid(bucket@, key));
                    bucket_entry(bucket@, key, i as int);
                    others_stay(old_bucket, bucket@, key, outpoint);
                }
            },
            None => {
                bucket.push((outpoint, value));
                self.count = self.count + 1;
                proof {
                    assert(bucket_valid(bucket@, key));
                    bucket_entry(bucket@, key, old_bucket.len() as int);
                    others_stay(old_bucket, bucket@, key, outpoint);
                }
            },
        }
        self.buckets.insert(key, bucket);
        proof {
            assert(self.buckets@ =~= buckets.insert(key, bucket));
            assert forall|o: Outpoint| #![trigger self@.contains_key(o)]
                (self@.contains_key(o) <==> before.insert(outpoint, value).contains_key(o)) && (
                self@.contains_key(o) ==> self@[o] == before.insert(outpoint, value)[o]) by {}
            assert(self@ =~= before.insert(outpoint, value));
            assert(before.insert(outpoint, value).dom() =~= before.dom().insert(outpoint));
        }
    }

    /// Drops the entry of an outpoint, if there is one.
    pub fn remove(&mut self, outpoint: &Outpoint)
        requires
            old(self).well_formed(),
        ensures
            final(self).well_formed(),
            final(self)@ == old(self)@.remove(*outpoint),
    {
        let ghost before = self@;
        let ghost buckets = self.buckets@;
        let key = bucket_of(outpoint);
        let mut bucket = match self.buckets.remove(&key) {
            Some(bucket) => bucket,
            None => {
                assert(self.buckets@ =~= buckets);
                assert(self@ =~= before.remove(*outpoint));
                assert(before.remove(*outpoint) =~= before);
                return ;
            },
        };
        let ghost old_bucket = bucket@;
        assert(bucket_valid(old_bucket, key));
        match Self::find(&bucket, outpoint) {
            Some(i) => {
                proof {
                    bucket_entry(old_bucket, key, i as int);
                    assert(before.contains_key(*outpoint));
                }
                let _ = bucket.swap_remove(i);
                self.count = self.count - 1;
                proof {
                    let last = old_bucket.len() - 1;
                    assert(forall|j: int|
                        0 <= j < bucket@.len() ==> #[trigger] bucket@[j] == (if j == i {
                            old_bucket[last]
                        } else {
                            old_bucket[j]
                        }));
                    assert(bucket_valid(bucket@, key));
                    assert forall|o: Outpoint| o != *outpoint implies (bucket_holds(bucket@, o)
                        <==> bucket_holds(old_bucket, o)) && (bucket_holds(old_bucket, o)
                        ==> bucket_value(bucket@, o) == bucket_value(old_bucket, o)) by {
                        if bucket_holds(old_bucket, o) {
                            let j = choose|j: int|
                                0 <= j < old_bucket.len() && (#[trigger] old_bucket[j]).0 == o;
                            let k = if j == last {
                                i as int
                            } else {
                                j
                            };
                            assert(bucket@[k] == old_bucket[j]);
                            bucket_entry(old_bucket, key, j);
                            bucket_entry(bucket@, key, k);
                        }
                        if bucket_holds(bucket@, o) {
                            let k = choose|k: int|
                                0 <= k < bucket@.len() && (#[trigger] bucket@[k]).0 == o;
                            if k == i {
                                assert(bucket@[k] == old_bucket[last]);
                            } else {
                                assert(bucket@[k] == old_bucket[k]);
                            }
                        }
                    }
                    assert(!bucket_holds(bucket@, *outpoint)) by {
                        if bucket_holds(bucket@, *outpoint) {
                            let k = choose|k: int|
                                0 <= k < bucket@.len() && (#[trigger] bucket@[k]).0 == *outpoint;
                            if k == i {
                                assert(old_bucket[i as int].0 != old_bucket[last].0);
                            } else if k < i {
                                assert(old_bucket[k].0 != old_bucket[i as int].0);
                            } else {
                                assert(old_bucket[i as int].0 != old_bucket[k].0);
                            }
                        }
                    }
                }
            },
            None => {},
        }
        if bucket.len() > 0 {
            self.buckets.insert(key, bucket);
        }
        proof {
            assert forall|o: Outpoint| #![trigger self@.contains_key(o)]
                (self@.contains_key(o) <==> before.remove(*outpoint).contains_key(o)) && (
                self@.contains_key(o) ==> self@[o] == before.remove(*outpoint)[o]) by {
                if bucket_key(o) == key {
                    if bucket@.len() == 0 {
                        assert(!bucket_holds(bucket@, o));
                    }
                }
            }
            assert(self@ =~= before.remove(*outpoint));
            assert(before.remove(*outpoint).dom() =~= before.dom().remove(*outpoint));
        }
    }
}

/// How long ago a moment was; none of the time, where it is still to come.
pub open spec fn age(now: u128, moment: u128) -> int {
    if moment <= now {
        now - moment
    } else {
        0
    }
}

/// The entries of moments that are no more than `max_age` ago.
pub open spec fn recent(moments: Map<Outpoint, u128>, now: u128, max_age: u128) -> Map<
    Outpoint,
    u128,
> {
    Map::new(
        |outpoint: Outpoint|
            moments.contains_key(outpoint) && age(now, moments[outpoint]) <= max_age,
        |outpoint: Outpoint| moments[outpoint],
    )
}

impl OutpointMap<u128> {
    /// The outpoints whose moments are more than `max_age` ago.
    fn expired(&self, now: u128, max_age: u128) -> (outpoints: Vec<Outpoint>)
        requires
            self.well_formed(),
        ensures
            forall|o: Outpoint|
                outpoints@.contains(o) <==> self@.contains_key(o) && age(now, self@[o]) > max_age,
    {
        let mut keys: Vec<u64> = Vec::new();
        let ghost all = self.buckets.keys().remaining().unref();
        for key in it: self.buckets.keys()
            invariant
                it.seq().unref() == all,
                keys@ =~= all.take(it.index() as int),
        {
            keys.push(*key);
        }
        assert(keys@ =~= all);
        let mut outpoints: Vec<Outpoint> = Vec::new();
        let mut k: usize = 0;
        while k < keys.len()
            invariant
                self.well_formed(),
                keys@.to_set() =~= self.buckets@.dom(),
                0 <= k <= keys.len(),
                forall|o: Outpoint|
                    outpoints@.contains(o) ==> self@.contains_key(o) && age(now, self@[o])
                        > max_age,
                forall|o: Outpoint, j: int|
                    0 <= j < k && #[trigger] keys@[j] == bucket_key(o)
                        && #[trigger] self@.contains_key(o) && age(now, self@[o]) > max_age
                        ==> outpoints@.contains(o),
            decreases keys.len() - k,
        {
            let key = keys[k];
            assert(keys@.to_set().contains(keys@[k as int]));
            match self.buckets.get(&key) {
                Some(bucket) => {
                    let mut i: usize = 0;
                    while i < bucket.len()
                        invariant
                            self.well_formed(),
                            self.buckets@.contains_key(key),
                            *bucket == self.buckets@[key],
                            0 <= i <= bucket.len(),
                            keys@[k as int] == key,
                            0 <= k < keys.len(),
                            forall|o: Outpoint|
                                outpoints@.contains(o) ==> self@.contains_key(o) && age(
                                    now,
                                    self@[o],
                                ) > max_age,
                            forall|o: Outpoint, j: int|
                                0 <= j < k && #[trigger] keys@[j] == bucket_key(o)
                                    && #[trigger] self@.contains_key(o) && age(now, self@[o])
                                    > max_age ==> outpoints@.contains(o),
                            forall|j: int|
                                0 <= j < i && age(now, (#[trigger] bucket@[j]).1) > max_age
                                    ==> outpoints@.contains(bucket@[j].0),
                        decreases bucket.len() - i,
                    {
                        let (outpoint, moment) = bucket[i];
                        proof {
                            bucket_entry(bucket@, key, i as int);
                            assert(bucket_key(bucket@[i as int].0) == key);
                            assert(self@.contains_key(outpoint) && self@[outpoint] == moment);
                        }
                        let ghost before = outpoints@;
                        if moment <= now && now - moment > max_age {
                            outpoints.push(outpoint);
                            proof {
                                assert(outpoints@[before.len() as int] == outpoint);
                                assert forall|o: Outpoint| #![trigger outpoints@.contains(o)]
                                    outpoints@.contains(o) <==> before.contains(o) || o
                                        == outpoint by {
                                    if before.contains(o) {
                                        assert(outpoints@[before.index_of(o)] == o);
                                    }
                                    if outpoints@.contains(o) {
                                        let j = outpoints@.index_of(o);
                                        assert(j < before.len() ==> before[j] == o);
                                    }
                                }
                            }
                        }
                        i += 1;
                    }
                    proof {
                        assert forall|o: Outpoint, j: int|
                            0 <= j < k + 1 && #[trigger] keys@[j] == bucket_key(o)
                                && #[trigger] self@.contains_key(o) && age(now, self@[o])
                                > max_age implies outpoints@.contains(o) by {
                            if j == k {
                                let n = choose|n: int|
                                    0 <= n < bucket@.len() && (#[trigger] bucket@[n]).0 == o;
                                bucket_entry(bucket@, key, n);
                            }
                        }
                    }
                },
                None => {},
            }
            k += 1;
        }
        proof {
            assert forall|o: Outpoint|
                self@.contains_key(o) && age(now, self@[o]) > max_age implies
                outpoints@.contains(o) by {
                assert(keys@.to_set().contains(bucket_key(o)));
                let j = keys@.index_of(bucket_key(o));
                assert(keys@[j] == bucket_key(o));
            }
        }
        outpoints
    }

    /// Drops every entry whose moment is more than `max_age` ago.
    pub fn retain_recent(&mut self, now: u128, max_age: u128)
        requires
            old(self).well_formed(),
        ensures
            final(self).well_formed(),
            final(self)@ == recent(old(self)@, now, max_age),
    {
        let ghost before = self@;
        let expired = self.expired(now, max_age);
        let mut i: usize = 0;
        while i < expired.len()
            invariant
                self.well_formed(),
                0 <= i <= expired.len(),
                self@ =~= before.remove_keys(expired@.take(i as int).to_set()),
            decreases expired.len() - i,
        {
            let ghost removed = expired@.take(i as int);
            self.remove(&expired[i]);
            proof {
                assert(expired@.take(i + 1) =~= removed.push(expired@[i as int]));
                assert(removed.push(expired@[i as int]).to_set() =~= removed.to_set().insert(
                    expired@[i as int],
                )) by {
                    broadcast use vstd::seq_lib::group_seq_properties;

                }
            }
            i += 1;
        }
        proof {
            assert(expired@.take(expired.len() as int) =~= expired@);
            assert(self@ =~= recent(before, now, max_age));
        }
    }
}

/// A moment is as old as the time that has passed since, and one to come is not old at all.
pub proof fn age_in_full(now: u128, moment: u128)
    ensures
        age(now, moment) >= now - moment,
        age(now, moment) >= 0,
        age(now, moment) == now - moment || (age(now, moment) == 0 && now < moment),
{
}

/// Exactly the moments that are no more than `max_age` ago are kept, as they are.
pub proof fn recent_in_full(
    moments: Map<Outpoint, u128>,
    now: u128,
    max_age: u128,
    outpoint: Outpoint,
)
    ensures
        recent(moments, now, max_age).contains_key(outpoint) <==> moments.contains_key(outpoint)
            && now - moments[outpoint] <= max_age,
        recent(moments, now, max_age).contains_key(outpoint) ==> recent(
            moments,
            now,
            max_age,
        )[outpoint] == moments[outpoint],
{
}

} // verus!
