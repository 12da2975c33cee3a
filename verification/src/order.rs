//! Stable sorting by an integer key.
use crate::number::Number;
use vstd::prelude::*;

verus! {

/// Whether the item `a` comes in front of the item `b`: by its key, and with
/// equal keys by its place.
pub open spec fn in_front(keys: Seq<i64>, a: usize, b: usize) -> bool {
    keys[a as int] < keys[b as int] || (keys[a as int] == keys[b as int] && a < b)
}

/// Whether `order` lists the items of `keys` by ascending key, equal keys in
/// the order in which they stand.
pub open spec fn is_stable_order(keys: Seq<i64>, order: Seq<usize>) -> bool {
    &&& order.len() == keys.len()
    &&& forall|i: int| 0 <= i < order.len() ==> (#[trigger] order[i]) < keys.len()
    &&& forall|i: int, j: int|
        0 <= i < j < order.len() ==> in_front(keys, #[trigger] order[i], #[trigger] order[j])
}

/// The one stable order of `keys`.
pub open spec fn stable_order(keys: Seq<i64>) -> Seq<usize> {
    choose|order: Seq<usize>| is_stable_order(keys, order)
}

/// A stable order leaves no item out.
pub proof fn lemma_order_covers(keys: Seq<i64>, order: Seq<usize>, item: usize)
    requires
        is_stable_order(keys, order),
        item < keys.len(),
    ensures
        order.contains(item),
{
    let n = keys.len();
    let all = vstd::set_lib::set_int_range(0, n as int);
    let places = order.map_values(|i: usize| i as int);
    vstd::set_lib::lemma_int_range(0, n as int);
    assert(places.no_duplicates()) by {
        assert forall|i: int, j: int|
            0 <= i < places.len() && 0 <= j < places.len() && i != j implies places[i]
            != places[j] by {
            if i < j {
                assert(in_front(keys, order[i], order[j]));
            } else {
                assert(in_front(keys, order[j], order[i]));
            }
        }
    }
    places.unique_seq_to_set();
    assert(places.to_set().subset_of(all)) by {
        assert forall|x: int| places.to_set().contains(x) implies all.contains(x) by {
            let i = choose|i: int| 0 <= i < places.len() && places[i] == x;
            assert(order[i] < keys.len());
        }
    }
    vstd::set_lib::lemma_subset_equality(places.to_set(), all);
    assert(all.contains(item as int));
    assert(places.contains(item as int));
    let i = choose|i: int| 0 <= i < places.len() && places[i] == item as int;
    assert(order[i] == item);
}

/// There is only one stable order.
pub proof fn lemma_order_unique(keys: Seq<i64>, a: Seq<usize>, b: Seq<usize>)
    requires
        is_stable_order(keys, a),
        is_stable_order(keys, b),
    ensures
        a == b,
{
    assert forall|i: int| 0 <= i < a.len() implies a[i] == b[i] by {
        lemma_order_agrees(keys, a, b, i);
    }
    assert(a =~= b);
}

proof fn lemma_order_agrees(keys: Seq<i64>, a: Seq<usize>, b: Seq<usize>, i: int)
    requires
        is_stable_order(keys, a),
        is_stable_order(keys, b),
        0 <= i < a.len(),
    ensures
        a[i] == b[i],
    decreases i,
{
    assert forall|j: int| 0 <= j < i implies a[j] == b[j] by {
        lemma_order_agrees(keys, a, b, j);
    }
    if a[i] != b[i] {
        lemma_order_covers(keys, b, a[i]);
        lemma_order_covers(keys, a, b[i]);
        let k = choose|k: int| 0 <= k < b.len() && b[k] == a[i];
        let m = choose|m: int| 0 <= m < a.len() && a[m] == b[i];
        if k < i {
            assert(in_front(keys, a[k], a[i]));
            assert(false);
        }
        if m < i {
            assert(in_front(keys, b[m], b[i]));
            assert(false);
        }
        assert(in_front(keys, b[i], b[k]));
        assert(in_front(keys, a[i], a[m]));
    }
}

/// The stable order of the items `lo..hi`.
fn sort_part(keys: &[i64], lo: usize, hi: usize) -> (order: Vec<usize>)
    requires
        lo <= hi <= keys.len(),
    ensures
        order@.len() == hi - lo,
        forall|i: int| 0 <= i < order@.len() ==> lo <= (#[trigger] order@[i]) < hi,
        forall|i: int, j: int|
            0 <= i < j < order@.len() ==> in_front(
                keys@,
                #[trigger] order@[i],
                #[trigger] order@[j],
            ),
    decreases hi - lo,
{
    let mut out: Vec<usize> = Vec::new();
    if hi - lo <= 1 {
        if lo < hi {
            out.push(lo);
        }
        return out;
    }
    let mid: usize = lo + (hi - lo) / 2;
    let left = sort_part(keys, lo, mid);
    let right = sort_part(keys, mid, hi);
    let mut i: usize = 0;
    let mut j: usize = 0;
    while i < left.len() || j < right.len()
        invariant
            lo <= mid <= hi <= keys.len(),
            left@.len() == mid - lo,
            right@.len() == hi - mid,
            i <= left.len(),
            j <= right.len(),
            out@.len() == i + j,
            forall|k: int| 0 <= k < left@.len() ==> lo <= (#[trigger] left@[k]) < mid,
            forall|k: int| 0 <= k < right@.len() ==> mid <= (#[trigger] right@[k]) < hi,
            forall|k: int, m: int|
                0 <= k < m < left@.len() ==> in_front(
                    keys@,
                    #[trigger] left@[k],
                    #[trigger] left@[m],
                ),
            forall|k: int, m: int|
                0 <= k < m < right@.len() ==> in_front(
                    keys@,
                    #[trigger] right@[k],
                    #[trigger] right@[m],
                ),
            forall|k: int| 0 <= k < out@.len() ==> lo <= (#[trigger] out@[k]) < hi,
            forall|k: int, m: int|
                0 <= k < m < out@.len() ==> in_front(
                    keys@,
                    #[trigger] out@[k],
                    #[trigger] out@[m],
                ),
            forall|k: int, m: int|
                0 <= k < out@.len() && i <= m < left@.len() ==> in_front(
                    keys@,
                    #[trigger] out@[k],
                    #[trigger] left@[m],
                ),
            forall|k: int, m: int|
                0 <= k < out@.len() && j <= m < right@.len() ==> in_front(
                    keys@,
                    #[trigger] out@[k],
                    #[trigger] right@[m],
                ),
        decreases left.len() - i + (right.len() - j),
    {
        let from_left = if i == left.len() {
            false
        } else if j == right.len() {
            true
        } else {
            keys[left[i]] <= keys[right[j]]
        };
        if from_left {
            out.push(left[i]);
            i += 1;
        } else {
            out.push(right[j]);
            j += 1;
        }
    }
    out
}

/// The stable order of `keys`.
pub fn sort_order(keys: &[i64]) -> (order: Vec<usize>)
    ensures
        is_stable_order(keys@, order@),
        order@ == stable_order(keys@),
{
    let order = sort_part(keys, 0, keys.len());
    proof {
        assert(is_stable_order(keys@, order@));
        lemma_order_unique(keys@, order@, stable_order(keys@));
    }
    order
}

/// The keys by which `s` is ranked from the lowest number up.
pub open spec fn rising_keys(s: Seq<Number>) -> Seq<i64> {
    s.map_values(|x: Number| x.key() as i64)
}

/// The keys by which `s` is ranked from the highest number down.
pub open spec fn falling_keys(s: Seq<Number>) -> Seq<i64> {
    s.map_values(|x: Number| (-x.key()) as i64)
}

/// `s` from the lowest number up, equal ones in the order in which they stand.
pub open spec fn ascending(s: Seq<Number>) -> Seq<Number> {
    stable_order(rising_keys(s)).map_values(|i: usize| s[i as int])
}

/// `v` from the lowest number up.
pub fn sort_ascending(v: &[Number]) -> (r: Vec<Number>)
    ensures
        r@ == ascending(v@),
        r@.len() == v@.len(),
{
    let mut keys: Vec<i64> = Vec::new();
    for i in 0..v.len()
        invariant
            keys@ == rising_keys(v@.take(i as int)),
    {
        keys.push(v[i].order_key());
        assert(rising_keys(v@.take(i + 1)) == rising_keys(v@.take(i as int)).push(
            v@[i as int].key() as i64,
        ));
    }
    assert(v@.take(v@.len() as int) == v@);
    let order = sort_order(keys.as_slice());
    let mut r: Vec<Number> = Vec::new();
    for i in 0..order.len()
        invariant
            is_stable_order(rising_keys(v@), order@),
            r@ == order@.take(i as int).map_values(|k: usize| v@[k as int]),
    {
        r.push(v[order[i]]);
        assert(order@.take(i + 1).map_values(|k: usize| v@[k as int]) == order@.take(
            i as int,
        ).map_values(|k: usize| v@[k as int]).push(v@[order@[i as int] as int]));
    }
    assert(order@.take(order@.len() as int) == order@);
    r
}

/// The places of `v` from its highest number down, equal ones in the order in
/// which they stand.
pub fn order_descending(v: &[Number]) -> (order: Vec<usize>)
    ensures
        is_stable_order(falling_keys(v@), order@),
        order@ == stable_order(falling_keys(v@)),
{
    let mut keys: Vec<i64> = Vec::new();
    for i in 0..v.len()
        invariant
            keys@ == falling_keys(v@.take(i as int)),
    {
        keys.push(-v[i].order_key());
        assert(falling_keys(v@.take(i + 1)) == falling_keys(v@.take(i as int)).push(
            (-v@[i as int].key()) as i64,
        ));
    }
    assert(v@.take(v@.len() as int) == v@);
    sort_order(keys.as_slice())
}

/// The places of the `n` highest numbers of `s`, the highest first; of all
/// numbers if there are fewer.
pub open spec fn highest_places(s: Seq<Number>, n: nat) -> Seq<usize> {
    if n < s.len() {
        stable_order(falling_keys(s)).take(n as int)
    } else {
        stable_order(falling_keys(s))
    }
}

/// How many items at the front of `order` have keys of at most `key`.
spec fn reach(keys: Seq<i64>, order: Seq<usize>, key: i64) -> nat
    decreases order.len(),
{
    if order.len() == 0 || keys[order[0] as int] > key {
        0
    } else {
        1 + reach(keys, order.drop_first(), key)
    }
}

proof fn lemma_reach(keys: Seq<i64>, order: Seq<usize>, key: i64)
    requires
        forall|i: int, j: int|
            0 <= i < j < order.len() ==> keys[#[trigger] order[i] as int]
                <= keys[#[trigger] order[j] as int],
    ensures
        reach(keys, order, key) <= order.len(),
        forall|i: int|
            0 <= i < reach(keys, order, key) ==> keys[#[trigger] order[i] as int] <= key,
        forall|i: int|
            reach(keys, order, key) <= i < order.len() ==> keys[#[trigger] order[i] as int] > key,
    decreases order.len(),
{
    if order.len() > 0 {
        let tail = order.drop_first();
        let n = reach(keys, order, key);
        if keys[order[0] as int] <= key {
            lemma_reach(keys, tail, key);
            assert forall|i: int| 0 <= i < n implies keys[#[trigger] order[i] as int] <= key by {
                if i > 0 {
                    assert(order[i] == tail[i - 1]);
                }
            }
            assert forall|i: int| n <= i < order.len() implies keys[#[trigger] order[i] as int]
                > key by {
                assert(order[i] == tail[i - 1]);
            }
        } else {
            assert forall|i: int| 0 <= i < order.len() implies keys[#[trigger] order[i] as int]
                > key by {
                if i > 0 {
                    assert(keys[order[0] as int] <= keys[order[i] as int]);
                }
            }
        }
    }
}

/// Every sequence of keys has a stable order, provided that its places can be
/// counted.
pub proof fn law_order_exists(keys: Seq<i64>)
    requires
        keys.len() <= usize::MAX,
    ensures
        is_stable_order(keys, stable_order(keys)),
    decreases keys.len(),
{
    if keys.len() == 0 {
        assert(is_stable_order(keys, Seq::<usize>::empty()));
    } else {
        let init = keys.drop_last();
        law_order_exists(init);
        let order = stable_order(init);
        let new = (keys.len() - 1) as usize;
        let key = keys.last();
        assert forall|i: int, j: int| 0 <= i < j < order.len() implies keys[
            #[trigger] order[i] as int
        ] <= keys[#[trigger] order[j] as int] by {
            assert(in_front(init, order[i], order[j]));
        }
        let at = reach(keys, order, key) as int;
        lemma_reach(keys, order, key);
        let grown = order.take(at).push(new) + order.skip(at);
        assert forall|i: int, j: int| 0 <= i < j < grown.len() implies in_front(
            keys,
            #[trigger] grown[i],
            #[trigger] grown[j],
        ) by {
            let a = if i < at {
                i
            } else {
                i - 1
            };
            let b = if j < at {
                j
            } else {
                j - 1
            };
            if i != at && j != at {
                assert(grown[i] == order[a]);
                assert(grown[j] == order[b]);
                assert(in_front(init, order[a], order[b]));
            } else if i == at {
                assert(grown[j] == order[b]);
            } else {
                assert(grown[i] == order[a]);
                assert(order[a] < init.len());
            }
        }
        assert forall|i: int| 0 <= i < grown.len() implies (#[trigger] grown[i]) < keys.len() by {
            if i != at {
                let a = if i < at {
                    i
                } else {
                    i - 1
                };
                assert(grown[i] == order[a]);
            }
        }
        assert(is_stable_order(keys, grown));
    }
}

/// Ranking from the lowest up keeps the numbers and their count, and puts none
/// in front of a lower one.
pub proof fn law_ascending_is_sorted(s: Seq<Number>)
    requires
        s.len() <= usize::MAX,
    ensures
        ascending(s).len() == s.len(),
        ascending(s).to_multiset() == s.to_multiset(),
        forall|i: int, j: int|
            0 <= i <= j < s.len() ==> (#[trigger] ascending(s)[i]).key() <= (
            #[trigger] ascending(s)[j]).key(),
{
    let keys = rising_keys(s);
    let order = stable_order(keys);
    let ranked = ascending(s);
    law_order_exists(keys);
    assert forall|i: int, j: int| 0 <= i <= j < s.len() implies (#[trigger] ranked[i]).key() <= (
    #[trigger] ranked[j]).key() by {
        if i < j {
            assert(in_front(keys, order[i], order[j]));
        }
        lemma_key_fits(s[order[i] as int]);
        lemma_key_fits(s[order[j] as int]);
    }
    lemma_picked_multiset(s, order);
}

/// The highest numbers are listed from the highest down, equal ones in the
/// order in which they stand, none twice, and no number that is left out is
/// above one that is listed.
pub proof fn law_highest_are_highest(s: Seq<Number>, n: nat)
    requires
        s.len() <= usize::MAX,
    ensures
        highest_places(s, n).len() == if n < s.len() {
            n
        } else {
            s.len()
        },
        forall|i: int|
            0 <= i < highest_places(s, n).len() ==> (#[trigger] highest_places(s, n)[i]) < s.len(),
        forall|i: int, j: int|
            0 <= i < j < highest_places(s, n).len() ==> {
                let a = #[trigger] highest_places(s, n)[i];
                let b = #[trigger] highest_places(s, n)[j];
                &&& a != b
                &&& s[a as int].key() >= s[b as int].key()
                &&& s[a as int].key() == s[b as int].key() ==> a < b
            },
        forall|i: int, other: usize|
            #![trigger highest_places(s, n)[i], s[other as int]]
            0 <= i < highest_places(s, n).len() && other < s.len() && !highest_places(
                s,
                n,
            ).contains(other) ==> s[highest_places(s, n)[i] as int].key() >= s[other as int].key(),
{
    let keys = falling_keys(s);
    let order = stable_order(keys);
    let places = highest_places(s, n);
    law_order_exists(keys);
    assert forall|i: int, j: int| 0 <= i < j < order.len() implies {
        let a = #[trigger] order[i];
        let b = #[trigger] order[j];
        &&& a != b
        &&& s[a as int].key() >= s[b as int].key()
        &&& s[a as int].key() == s[b as int].key() ==> a < b
    } by {
        assert(in_front(keys, order[i], order[j]));
        lemma_key_fits(s[order[i] as int]);
        lemma_key_fits(s[order[j] as int]);
    }
    assert forall|i: int| 0 <= i < places.len() implies places[i] == order[i] by {}
    assert forall|i: int, other: usize|
        #![trigger places[i], s[other as int]]
        0 <= i < places.len() && other < s.len() && !places.contains(
            other,
        ) implies s[places[i] as int].key() >= s[other as int].key() by {
        lemma_order_covers(keys, order, other);
        let k = choose|k: int| 0 <= k < order.len() && order[k] == other;
        if k < places.len() {
            assert(places[k] == other);
        }
        assert(places[i] == order[i]);
    }
}

proof fn lemma_key_fits(x: Number)
    ensures
        x.key() as i64 == x.key(),
        (-x.key()) as i64 == -x.key(),
{
}

/// Picking every place once keeps the items.
proof fn lemma_picked_multiset(s: Seq<Number>, order: Seq<usize>)
    requires
        s.len() <= usize::MAX,
        is_stable_order(rising_keys(s), order),
    ensures
        order.map_values(|i: usize| s[i as int]).to_multiset() == s.to_multiset(),
{
    let keys = rising_keys(s);
    let picked = order.map_values(|i: usize| s[i as int]);
    let places = order.map_values(|i: usize| i as int);
    assert forall|i: int, j: int|
        0 <= i < places.len() && 0 <= j < places.len() && i != j implies places[i] != places[j] by {
        if i < j {
            assert(in_front(keys, order[i], order[j]));
        } else {
            assert(in_front(keys, order[j], order[i]));
        }
    }
    assert forall|k: int| 0 <= k < s.len() implies places.contains(k) by {
        lemma_order_covers(keys, order, k as usize);
        let i = choose|i: int| 0 <= i < order.len() && order[i] == k as usize;
        assert(places[i] == k);
    }
    lemma_rearranged(s, places);
    assert(picked =~= places.map_values(|i: int| s[i]));
}

/// A sequence read through a permutation of its places has the same items.
proof fn lemma_rearranged(s: Seq<Number>, places: Seq<int>)
    requires
        places.len() == s.len(),
        places.no_duplicates(),
        forall|i: int| 0 <= i < places.len() ==> 0 <= #[trigger] places[i] < s.len(),
        forall|k: int| 0 <= k < s.len() ==> places.contains(k),
    ensures
        places.map_values(|i: int| s[i]).to_multiset() == s.to_multiset(),
    decreases s.len(),
{
    broadcast use vstd::seq_lib::group_to_multiset_ensures;

    let read = places.map_values(|i: int| s[i]);
    if s.len() > 0 {
        let last = s.len() - 1;
        assert(places.contains(last));
        let at = choose|i: int| 0 <= i < places.len() && places[i] == last;
        let init = s.drop_last();
        let fewer = places.remove(at);
        assert forall|k: int| 0 <= k < init.len() implies fewer.contains(k) by {
            assert(places.contains(k));
            let i = choose|i: int| 0 <= i < places.len() && places[i] == k;
            assert(i != at);
            if i < at {
                assert(fewer[i] == k);
            } else {
                assert(fewer[i - 1] == k);
            }
        }
        assert forall|i: int| 0 <= i < fewer.len() implies 0 <= #[trigger] fewer[i]
            < init.len() by {
            let j = if i < at {
                i
            } else {
                i + 1
            };
            assert(fewer[i] == places[j]);
            assert(places[j] != places[at]);
        }
        lemma_rearranged(init, fewer);
        assert(fewer.map_values(|i: int| init[i]) =~= read.remove(at));
        assert(read[at] == s.last());
        assert(init.push(s.last()) =~= s);
        assert(read.to_multiset() =~= read.remove(at).to_multiset().insert(read[at]));
        assert(s.to_multiset() =~= init.to_multiset().insert(s.last()));
    } else {
        assert(read =~= s);
    }
}

/// A stable order lists every place once, by rising key, and equal keys by
/// rising place.
pub proof fn law_stable_order(keys: Seq<i64>, order: Seq<usize>)
    requires
        is_stable_order(keys, order),
    ensures
        order.len() == keys.len(),
        forall|p: usize| p < keys.len() ==> #[trigger] order.contains(p),
        forall|i: int| 0 <= i < order.len() ==> (#[trigger] order[i]) < keys.len(),
        forall|i: int, j: int|
            0 <= i < j < order.len() ==> {
                let a = #[trigger] order[i];
                let b = #[trigger] order[j];
                keys[a as int] <= keys[b as int] && (keys[a as int] == keys[b as int] ==> a < b)
            },
{
    assert forall|p: usize| p < keys.len() implies #[trigger] order.contains(p) by {
        lemma_order_covers(keys, order, p);
    }
    assert forall|i: int, j: int| 0 <= i < j < order.len() implies {
        let a = #[trigger] order[i];
        let b = #[trigger] order[j];
        keys[a as int] <= keys[b as int] && (keys[a as int] == keys[b as int] ==> a < b)
    } by {
        assert(in_front(keys, order[i], order[j]));
    }
}

/// Ranking from the lowest up leaves what is ranked already as it is.
pub proof fn law_ascending_keeps_ranked(s: Seq<Number>)
    requires
        s.len() <= usize::MAX,
        forall|i: int, j: int| 0 <= i < j < s.len() ==> (#[trigger] s[i]).key() <= (
        #[trigger] s[j]).key(),
    ensures
        ascending(s) == s,
{
    let keys = rising_keys(s);
    let same = Seq::new(s.len(), |i: int| i as usize);
    assert forall|i: int, j: int| 0 <= i < j < same.len() implies in_front(
        keys,
        #[trigger] same[i],
        #[trigger] same[j],
    ) by {
        lemma_key_fits(s[i]);
        lemma_key_fits(s[j]);
        assert(s[i].key() <= s[j].key());
    }
    assert(is_stable_order(keys, same));
    law_order_exists(keys);
    lemma_order_unique(keys, same, stable_order(keys));
    assert(ascending(s) =~= s);
}

/// What is ranked is ranked by the keys of the numbers: from the lowest up by the
/// keys, from the highest down by their negatives, equal keys by their places.
pub proof fn law_ranking_is_stable(s: Seq<Number>, i: int)
    requires
        s.len() <= usize::MAX,
        0 <= i < s.len(),
    ensures
        rising_keys(s).len() == s.len(),
        falling_keys(s).len() == s.len(),
        rising_keys(s)[i] == s[i].key(),
        falling_keys(s)[i] == -s[i].key(),
        ascending(s)[i] == s[stable_order(rising_keys(s))[i] as int],
        is_stable_order(rising_keys(s), stable_order(rising_keys(s))),
{
    lemma_key_fits(s[i]);
    law_order_exists(rising_keys(s));
}

} // verus!
