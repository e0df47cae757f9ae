//! Puts outputs in order, the largest first, and outputs of one amount in the order they came in.
use vstd::prelude::*;

use crate::tx::{utxo_views, Utxo, UtxoView};

verus! {

/// Puts an output behind every one of at least its amount.
pub open spec fn insert_by_amount(sorted: Seq<UtxoView>, utxo: UtxoView) -> Seq<UtxoView>
    decreases sorted.len(),
{
    if sorted.len() == 0 || sorted.last().entry.amount >= utxo.entry.amount {
        sorted.push(utxo)
    } else {
        insert_by_amount(sorted.drop_last(), utxo).push(sorted.last())
    }
}

/// The outputs in order, the largest first.
pub open spec fn largest_first(utxos: Seq<UtxoView>) -> Seq<UtxoView>
    decreases utxos.len(),
{
    if utxos.len() == 0 {
        Seq::empty()
    } else {
        insert_by_amount(largest_first(utxos.drop_last()), utxos.last())
    }
}

/// An amount, and the place where it was found.
type Key = (u64, usize);

/// Whether the first key goes before the second.
spec fn before(a: Key, b: Key) -> bool {
    a.0 > b.0 || (a.0 == b.0 && a.1 < b.1)
}

spec fn ordered(keys: Seq<Key>) -> bool {
    forall|i: int, j: int|
        0 <= i < j < keys.len() ==> before(#[trigger] keys[i], #[trigger] keys[j])
}

spec fn distinct_places(keys: Seq<Key>) -> bool {
    forall|i: int, j: int|
        0 <= i < j < keys.len() ==> (#[trigger] keys[i]).1 != (#[trigger] keys[j]).1
}

/// Merges two ordered lists of keys from different places.
fn merge(a: &Vec<Key>, b: &Vec<Key>) -> (merged: Vec<Key>)
    requires
        ordered(a@),
        ordered(b@),
        forall|i: int, j: int|
            0 <= i < a.len() && 0 <= j < b.len() ==> (#[trigger] a@[i]).1 != (#[trigger] b@[j]).1,
    ensures
        ordered(merged@),
        merged@.to_multiset() =~= a@.to_multiset().add(b@.to_multiset()),
{
    broadcast use vstd::seq_lib::group_to_multiset_ensures;

    let mut merged: Vec<Key> = Vec::new();
    let mut i: usize = 0;
    let mut j: usize = 0;
    assert(a@.take(0).to_multiset().add(b@.take(0).to_multiset()) =~= merged@.to_multiset());
    while i < a.len() || j < b.len()
        invariant
            0 <= i <= a.len(),
            0 <= j <= b.len(),
            ordered(a@),
            ordered(b@),
            forall|x: int, y: int|
                0 <= x < a.len() && 0 <= y < b.len() ==> (#[trigger] a@[x]).1
                    != (#[trigger] b@[y]).1,
            ordered(merged@),
            forall|x: int, y: int|
                0 <= x < merged.len() && i <= y < a.len() ==> before(
                    #[trigger] merged@[x],
                    #[trigger] a@[y],
                ),
            forall|x: int, y: int|
                0 <= x < merged.len() && j <= y < b.len() ==> before(
                    #[trigger] merged@[x],
                    #[trigger] b@[y],
                ),
            merged@.to_multiset() =~= a@.take(i as int).to_multiset().add(
                b@.take(j as int).to_multiset(),
            ),
        decreases a.len() - i + b.len() - j,
    {
        let ghost old_merged = merged@;
        let from_a = if i >= a.len() {
            false
        } else if j >= b.len() {
            true
        } else {
            a[i].0 > b[j].0 || (a[i].0 == b[j].0 && a[i].1 < b[j].1)
        };
        if from_a {
            merged.push(a[i]);
            proof {
                assert(a@.take(i + 1) =~= a@.take(i as int).push(a@[i as int]));
                a@.take(i as int).to_multiset_ensures();
                old_merged.to_multiset_ensures();
                if j < b.len() {
                    assert forall|y: int| j <= y < b.len() implies before(
                        a@[i as int],
                        #[trigger] b@[y],
                    ) by {
                        assert(y == j || before(b@[j as int], b@[y]));
                    }
                }
            }
            i += 1;
        } else {
            merged.push(b[j]);
            proof {
                assert(b@.take(j + 1) =~= b@.take(j as int).push(b@[j as int]));
                b@.take(j as int).to_multiset_ensures();
                old_merged.to_multiset_ensures();
                if i < a.len() {
                    assert forall|y: int| i <= y < a.len() implies before(
                        b@[j as int],
                        #[trigger] a@[y],
                    ) by {
                        assert(a@[i as int].1 != b@[j as int].1);
                        assert(y == i || before(a@[i as int], a@[y]));
                    }
                }
            }
            j += 1;
        }
    }
    assert(a@.take(a.len() as int) =~= a@);
    assert(b@.take(b.len() as int) =~= b@);
    merged
}

/// Every element of a list whose elements are those of another is found in the other.
proof fn same_elements<T>(a: Seq<T>, b: Seq<T>, i: int)
    requires
        a.to_multiset() == b.to_multiset(),
        0 <= i < a.len(),
    ensures
        b.contains(a[i]),
{
    broadcast use vstd::seq_lib::group_to_multiset_ensures;

    assert(a.contains(a[i]));
    assert(a.to_multiset().count(a[i]) > 0);
}

/// Orders the keys from `start` up to `end`.
fn order(keys: &Vec<Key>, start: usize, end: usize) -> (sorted: Vec<Key>)
    requires
        start <= end <= keys.len(),
        distinct_places(keys@),
    ensures
        ordered(sorted@),
        sorted@.to_multiset() =~= keys@.subrange(start as int, end as int).to_multiset(),
    decreases end - start,
{
    broadcast use vstd::seq_lib::group_to_multiset_ensures;

    if end - start == 0 {
        let sorted: Vec<Key> = Vec::new();
        assert(sorted@ =~= keys@.subrange(start as int, end as int));
        sorted
    } else if end - start == 1 {
        let mut sorted: Vec<Key> = Vec::new();
        sorted.push(keys[start]);
        assert(sorted@ =~= keys@.subrange(start as int, end as int));
        sorted
    } else {
        let middle = start + (end - start) / 2;
        let left = order(keys, start, middle);
        let right = order(keys, middle, end);
        proof {
            let l = keys@.subrange(start as int, middle as int);
            let r = keys@.subrange(middle as int, end as int);
            assert forall|i: int, j: int| 0 <= i < left.len() && 0 <= j < right.len() implies (
            #[trigger] left@[i]).1 != (#[trigger] right@[j]).1 by {
                same_elements(left@, l, i);
                same_elements(right@, r, j);
                let x = l.index_of(left@[i]);
                let y = r.index_of(right@[j]);
                assert(keys@[start + x].1 != keys@[middle + y].1);
            }
            assert(keys@.subrange(start as int, end as int) =~= l + r);
            vstd::seq_lib::lemma_multiset_commutative(l, r);
        }
        merge(&left, &right)
    }
}

/// Where an output goes among sorted ones: behind those of at least its amount, before the rest.
proof fn insert_position(sorted: Seq<UtxoView>, utxo: UtxoView, k: int)
    requires
        0 <= k <= sorted.len(),
        forall|i: int|
            0 <= i < k ==> (#[trigger] sorted[i]).entry.amount >= utxo.entry.amount,
        forall|i: int|
            k <= i < sorted.len() ==> (#[trigger] sorted[i]).entry.amount < utxo.entry.amount,
    ensures
        insert_by_amount(sorted, utxo) =~= sorted.insert(k, utxo),
    decreases sorted.len(),
{
    if k < sorted.len() {
        insert_position(sorted.drop_last(), utxo, k);
        assert(sorted.drop_last().insert(k, utxo).push(sorted.last()) =~= sorted.insert(k, utxo));
    } else {
        assert(sorted.insert(k, utxo) =~= sorted.push(utxo));
    }
}

/// The keys of a list of outputs.
spec fn keys_of(utxos: Seq<UtxoView>) -> Seq<Key> {
    Seq::new(utxos.len(), |i: int| (utxos[i].entry.amount, i as usize))
}

/// The outputs that ordered keys point at.
spec fn gather(utxos: Seq<UtxoView>, keys: Seq<Key>) -> Seq<UtxoView> {
    keys.map_values(|k: Key| utxos[k.1 as int])
}

/// Ordered keys point at the outputs in order.
proof fn ordered_keys_sort(utxos: Seq<UtxoView>, keys: Seq<Key>)
    requires
        utxos.len() <= usize::MAX,
        ordered(keys),
        keys.to_multiset() == keys_of(utxos).to_multiset(),
    ensures
        gather(utxos, keys) =~= largest_first(utxos),
    decreases utxos.len(),
{
    broadcast use vstd::seq_lib::group_to_multiset_ensures;

    let all = keys_of(utxos);
    keys.to_multiset_ensures();
    all.to_multiset_ensures();
    if utxos.len() > 0 {
        let n = utxos.len() - 1;
        let last: Key = all[n];
        assert(all.contains(last));
        assert(keys.to_multiset().count(last) > 0);
        let k = keys.index_of(last);
        let rest = keys.remove(k);
        assert(all.drop_last() =~= keys_of(utxos.drop_last()));
        assert(all =~= all.drop_last().push(last));
        assert(keys.to_multiset() =~= rest.to_multiset().insert(last));
        assert(rest.to_multiset() =~= all.drop_last().to_multiset());
        ordered_keys_sort(utxos.drop_last(), rest);
        assert forall|i: int| 0 <= i < rest.len() implies {
            let key = #[trigger] rest[i];
            key.1 < n && key.0 == utxos[key.1 as int].entry.amount
        } by {
            same_elements(rest, all.drop_last(), i);
        }
        let sorted = gather(utxos.drop_last(), rest);
        assert(sorted =~= gather(utxos, rest));
        assert forall|i: int| 0 <= i < k implies (#[trigger] sorted[i]).entry.amount
            >= utxos[n].entry.amount by {
            assert(before(keys[i], keys[k]));
            assert(rest[i] == keys[i]);
        }
        assert forall|i: int| k <= i < sorted.len() implies (#[trigger] sorted[i]).entry.amount
            < utxos[n].entry.amount by {
            assert(before(keys[k], keys[i + 1]));
            assert(rest[i] == keys[i + 1]);
        }
        insert_position(sorted, utxos[n], k);
        assert(gather(utxos, keys) =~= sorted.insert(k, utxos[n]));
    }
}

/// Puts the outputs in order, the largest first.
pub fn sort_by_amount(utxos: &Vec<Utxo>) -> (sorted: Vec<Utxo>)
    ensures
        utxo_views(sorted@) == largest_first(utxo_views(utxos@)),
{
    let ghost views = utxo_views(utxos@);
    let mut keys: Vec<Key> = Vec::new();
    let mut i: usize = 0;
    while i < utxos.len()
        invariant
            0 <= i <= utxos.len(),
            views == utxo_views(utxos@),
            keys@ =~= keys_of(views).take(i as int),
        decreases utxos.len() - i,
    {
        keys.push((utxos[i].entry.amount, i));
        i += 1;
    }
    assert(keys@ =~= keys_of(views));
    let order = order(&keys, 0, keys.len());
    assert(keys@.subrange(0, keys.len() as int) =~= keys@);
    proof {
        ordered_keys_sort(views, order@);
        assert forall|j: int| 0 <= j < order.len() implies (#[trigger] order@[j]).1
            < utxos.len() by {
            same_elements(order@, keys@, j);
        }
    }
    let mut sorted: Vec<Utxo> = Vec::new();
    let mut k: usize = 0;
    while k < order.len()
        invariant
            0 <= k <= order.len(),
            views == utxo_views(utxos@),
            forall|j: int| 0 <= j < order.len() ==> (#[trigger] order@[j]).1 < utxos.len(),
            utxo_views(sorted@) =~= gather(views, order@).take(k as int),
        decreases order.len() - k,
    {
        let ghost so_far = sorted@;
        sorted.push(utxos[order[k].1].clone());
        proof {
            assert(utxo_views(sorted@) =~= utxo_views(so_far).push(
                gather(views, order@)[k as int],
            ));
        }
        k += 1;
    }
    assert(gather(views, order@).take(order.len() as int) =~= gather(views, order@));
    sorted
}

/// Whether no output is larger than one before it.
pub open spec fn descending(utxos: Seq<UtxoView>) -> bool {
    forall|i: int, j: int|
        0 <= i <= j < utxos.len() ==> (#[trigger] utxos[i]).entry.amount >= (
        #[trigger] utxos[j]).entry.amount
}

/// Finds where an output is put among others: all behind it are smaller, the one before is not.
proof fn insert_shape(sorted: Seq<UtxoView>, utxo: UtxoView) -> (k: int)
    ensures
        0 <= k <= sorted.len(),
        insert_by_amount(sorted, utxo) =~= sorted.insert(k, utxo),
        k > 0 ==> sorted[k - 1].entry.amount >= utxo.entry.amount,
        forall|i: int|
            k <= i < sorted.len() ==> (#[trigger] sorted[i]).entry.amount < utxo.entry.amount,
    decreases sorted.len(),
{
    if sorted.len() == 0 || sorted.last().entry.amount >= utxo.entry.amount {
        assert(sorted.insert(sorted.len() as int, utxo) =~= sorted.push(utxo));
        sorted.len() as int
    } else {
        let k = insert_shape(sorted.drop_last(), utxo);
        assert(sorted.drop_last().insert(k, utxo).push(sorted.last()) =~= sorted.insert(k, utxo));
        assert forall|i: int| k <= i < sorted.len() implies (#[trigger] sorted[i]).entry.amount
            < utxo.entry.amount by {
            if i < sorted.len() - 1 {
                assert(sorted.drop_last()[i] == sorted[i]);
            }
        }
        k
    }
}

/// No output in the order is larger than one before it.
pub proof fn largest_first_descends(utxos: Seq<UtxoView>)
    ensures
        descending(largest_first(utxos)),
    decreases utxos.len(),
{
    if utxos.len() > 0 {
        largest_first_descends(utxos.drop_last());
        let sorted = largest_first(utxos.drop_last());
        let k = insert_shape(sorted, utxos.last());
        assert(largest_first(utxos) == sorted.insert(k, utxos.last()));
        assert(k > 0 ==> forall|i: int|
            0 <= i < k ==> (#[trigger] sorted[i]).entry.amount >= sorted[k - 1].entry.amount);
    }
}

/// Ordering neither loses nor adds an output.
pub proof fn largest_first_keeps_outputs(utxos: Seq<UtxoView>)
    ensures
        largest_first(utxos).to_multiset() == utxos.to_multiset(),
        largest_first(utxos).len() == utxos.len(),
    decreases utxos.len(),
{
    if utxos.len() > 0 {
        largest_first_keeps_outputs(utxos.drop_last());
        let sorted = largest_first(utxos.drop_last());
        let k = insert_shape(sorted, utxos.last());
        vstd::seq_lib::to_multiset_insert(sorted, k, utxos.last());
        utxos.drop_last().to_multiset_ensures();
        assert(utxos.drop_last().push(utxos.last()) =~= utxos);
        assert(sorted.insert(k, utxos.last()).to_multiset() =~= utxos.to_multiset());
    } else {
        assert(utxos =~= Seq::empty());
    }
}

/// Outputs of one amount stay in the order they came in.
pub proof fn largest_first_is_stable(utxos: Seq<UtxoView>, amount: u64)
    ensures
        largest_first(utxos).filter(|u: UtxoView| u.entry.amount == amount) == utxos.filter(
            |u: UtxoView| u.entry.amount == amount,
        ),
    decreases utxos.len(),
{
    let same = |u: UtxoView| u.entry.amount == amount;
    if utxos.len() > 0 {
        let earlier = utxos.drop_last();
        let last = utxos.last();
        largest_first_is_stable(earlier, amount);
        let sorted = largest_first(earlier);
        let k = insert_shape(sorted, last);
        let front = sorted.take(k);
        let back = sorted.skip(k);
        assert(sorted =~= front + back);
        assert(largest_first(utxos) =~= front + (seq![last] + back));
        assert(utxos =~= earlier + seq![last]);
        Seq::filter_distributes_over_add(front, back, same);
        Seq::filter_distributes_over_add(front, seq![last] + back, same);
        Seq::filter_distributes_over_add(seq![last], back, same);
        Seq::filter_distributes_over_add(earlier, seq![last], same);
        if same(last) {
            assert forall|i: int| 0 <= i < back.len() implies !same(#[trigger] back[i]) by {
                assert(back[i] == sorted[k + i]);
            }
            none_pass(back, same);
            assert(back.filter(same) =~= Seq::empty());
            assert(largest_first(utxos).filter(same) =~= utxos.filter(same));
        } else {
            assert forall|i: int| 0 <= i < seq![last].len() implies !same(
                #[trigger] seq![last][i],
            ) by {}
            none_pass(seq![last], same);
            assert(seq![last].filter(same) =~= Seq::empty());
            assert(largest_first(utxos).filter(same) =~= utxos.filter(same));
        }
    }
}

/// Leaving outputs out before ordering or after comes to the same.
pub proof fn largest_first_filters(utxos: Seq<UtxoView>, pred: spec_fn(UtxoView) -> bool)
    ensures
        largest_first(utxos.filter(pred)) == largest_first(utxos).filter(pred),
    decreases utxos.len(),
{
    reveal(Seq::filter);
    if utxos.len() > 0 {
        let sorted = largest_first(utxos.drop_last());
        largest_first_filters(utxos.drop_last(), pred);
        largest_first_descends(utxos.drop_last());
        insert_filters(sorted, utxos.last(), pred);
        if pred(utxos.last()) {
            assert(utxos.filter(pred).drop_last() =~= utxos.drop_last().filter(pred));
        }
    }
}

/// Leaving outputs out before putting one among them or after comes to the same.
proof fn insert_filters(sorted: Seq<UtxoView>, utxo: UtxoView, pred: spec_fn(UtxoView) -> bool)
    requires
        descending(sorted),
    ensures
        insert_by_amount(sorted, utxo).filter(pred) == (if pred(utxo) {
            insert_by_amount(sorted.filter(pred), utxo)
        } else {
            sorted.filter(pred)
        }),
{
    let k = insert_shape(sorted, utxo);
    let front = sorted.take(k);
    let back = sorted.skip(k);
    let kept = sorted.filter(pred);
    assert(sorted =~= front + back);
    assert(insert_by_amount(sorted, utxo) =~= front + (seq![utxo] + back));
    Seq::filter_distributes_over_add(front, back, pred);
    Seq::filter_distributes_over_add(front, seq![utxo] + back, pred);
    Seq::filter_distributes_over_add(seq![utxo], back, pred);
    if pred(utxo) {
        assert(seq![utxo].filter(pred) =~= seq![utxo]) by {
            reveal(Seq::filter);
            assert(seq![utxo].drop_last() =~= Seq::empty());
        }
        let j = front.filter(pred).len() as int;
        assert forall|i: int| 0 <= i < j implies (#[trigger] kept[i]).entry.amount
            >= utxo.entry.amount by {
            assert(front.filter(pred).contains(front.filter(pred)[i]));
            front.lemma_filter_contains_rev(pred, kept[i]);
            let x = front.index_of(kept[i]);
            assert(sorted[x].entry.amount >= sorted[k - 1].entry.amount);
        }
        assert forall|i: int| j <= i < kept.len() implies (#[trigger] kept[i]).entry.amount
            < utxo.entry.amount by {
            assert(back.filter(pred)[i - j] == kept[i]);
            assert(back.filter(pred).contains(kept[i]));
            back.lemma_filter_contains_rev(pred, kept[i]);
            let x = back.index_of(kept[i]);
            assert(sorted[k + x].entry.amount < utxo.entry.amount);
        }
        insert_position(kept, utxo, j);
        assert(kept.insert(j, utxo) =~= front.filter(pred) + (seq![utxo] + back.filter(pred)));
    } else {
        none_pass(seq![utxo], pred);
        assert(insert_by_amount(sorted, utxo).filter(pred) =~= kept);
    }
}

/// Nothing is left of a list when no element passes.
proof fn none_pass<T>(list: Seq<T>, pred: spec_fn(T) -> bool)
    requires
        forall|i: int| 0 <= i < list.len() ==> !pred(#[trigger] list[i]),
    ensures
        list.filter(pred).len() == 0,
    decreases list.len(),
{
    reveal(Seq::filter);
    if list.len() > 0 {
        assert forall|i: int| 0 <= i < list.drop_last().len() implies !pred(
            #[trigger] list.drop_last()[i],
        ) by {
            assert(list.drop_last()[i] == list[i]);
        }
        none_pass(list.drop_last(), pred);
    }
}

} // verus!
