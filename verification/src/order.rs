//! Stable ordering of measurements by a numeric key.
use vstd::prelude::*;

use crate::double::Double;

verus! {

/// Keys that can be put in order: of two or more, none is a NaN.
pub open spec fn comparable(keys: Seq<Double>) -> bool {
    keys.len() < 2 || forall|i: int| 0 <= i < keys.len() ==> !(#[trigger] keys[i]).nan()
}

/// Position `a` comes before position `b`: its key is smaller, or the keys are equal and `a` is
/// the earlier position.
pub open spec fn precedes(keys: Seq<Double>, a: int, b: int) -> bool {
    keys[a].rank() < keys[b].rank() || (keys[a].rank() == keys[b].rank() && a < b)
}

/// `order` lists some positions from `low` up to `high`, each before the next.
pub open spec fn ascending_within(keys: Seq<Double>, order: Seq<usize>, low: int, high: int) -> bool {
    &&& forall|i: int| 0 <= i < order.len() ==> low <= #[trigger] order[i] < high
    &&& forall|i: int, j: int|
        0 <= i < j < order.len() ==> precedes(keys, #[trigger] order[i] as int, #[trigger] order[j] as int)
}

/// `order` lists every position of `keys` once, by ascending key, equal keys in their given order.
pub open spec fn is_stable_order(keys: Seq<Double>, order: Seq<usize>) -> bool {
    &&& order.len() == keys.len()
    &&& ascending_within(keys, order, 0, keys.len() as int)
}

/// The stable order of keys.
pub open spec fn order_of(keys: Seq<Double>) -> Seq<usize> {
    choose|order: Seq<usize>| is_stable_order(keys, order)
}

/// Whether keys can be put in order.
pub fn is_comparable(keys: &Vec<Double>) -> (res: bool)
    ensures
        res == comparable(keys@),
{
    if keys.len() < 2 {
        return true;
    }
    for i in 0..keys.len()
        invariant
            keys@.len() >= 2,
            forall|j: int| 0 <= j < i ==> !(#[trigger] keys@[j]).nan(),
    {
        if keys[i].is_nan() {
            return false;
        }
    }
    true
}

/// Merges two ascending runs of neighbouring positions.
fn merge(keys: &Vec<Double>, left: &Vec<usize>, right: &Vec<usize>, Ghost(low): Ghost<int>, Ghost(
    middle,
): Ghost<int>, Ghost(high): Ghost<int>) -> (res: Vec<usize>)
    requires
        0 <= low <= middle <= high <= keys@.len(),
        forall|i: int| 0 <= i < keys@.len() ==> !(#[trigger] keys@[i]).nan(),
        ascending_within(keys@, left@, low, middle),
        ascending_within(keys@, right@, middle, high),
        left@.len() == middle - low,
        right@.len() == high - middle,
    ensures
        ascending_within(keys@, res@, low, high),
        res@.len() == high - low,
{
    let mut res: Vec<usize> = Vec::new();
    let mut i: usize = 0;
    let mut j: usize = 0;
    while i < left.len() || j < right.len()
        invariant
            0 <= low <= middle <= high <= keys@.len(),
            forall|k: int| 0 <= k < keys@.len() ==> !(#[trigger] keys@[k]).nan(),
            ascending_within(keys@, left@, low, middle),
            ascending_within(keys@, right@, middle, high),
            left@.len() == middle - low,
            right@.len() == high - middle,
            i <= left@.len(),
            j <= right@.len(),
            res@.len() == i + j,
            ascending_within(keys@, res@, low, high),
            forall|k: int, l: int|
                0 <= k < res@.len() && i <= l < left@.len() ==> precedes(
                    keys@,
                    #[trigger] res@[k] as int,
                    #[trigger] left@[l] as int,
                ),
            forall|k: int, l: int|
                0 <= k < res@.len() && j <= l < right@.len() ==> precedes(
                    keys@,
                    #[trigger] res@[k] as int,
                    #[trigger] right@[l] as int,
                ),
        decreases left@.len() - i + right@.len() - j,
    {
        if j == right.len() || (i < left.len() && !keys[right[j]].lt(&keys[left[i]])) {
            res.push(left[i]);
            i = i + 1;
        } else {
            res.push(right[j]);
            j = j + 1;
        }
    }
    res
}

/// Sorts the positions from `low` up to `high`.
fn sort_range(keys: &Vec<Double>, low: usize, high: usize) -> (res: Vec<usize>)
    requires
        low <= high <= keys@.len(),
        forall|i: int| 0 <= i < keys@.len() ==> !(#[trigger] keys@[i]).nan(),
    ensures
        ascending_within(keys@, res@, low as int, high as int),
        res@.len() == high - low,
    decreases high - low,
{
    if high - low < 2 {
        let mut res: Vec<usize> = Vec::new();
        if low < high {
            res.push(low);
        }
        return res;
    }
    let middle: usize = low + (high - low) / 2;
    let left = sort_range(keys, low, middle);
    let right = sort_range(keys, middle, high);
    merge(keys, &left, &right, Ghost(low as int), Ghost(middle as int), Ghost(high as int))
}

/// The positions of `keys` by ascending key, equal keys in their given order.
pub fn stable_order(keys: &Vec<Double>) -> (order: Vec<usize>)
    requires
        comparable(keys@),
    ensures
        is_stable_order(keys@, order@),
        order@ == order_of(keys@),
{
    let order = sorted_positions(keys);
    proof {
        lemma_stable_order_unique(keys@, order@, order_of(keys@));
    }
    order
}

fn sorted_positions(keys: &Vec<Double>) -> (order: Vec<usize>)
    requires
        comparable(keys@),
    ensures
        is_stable_order(keys@, order@),
{
    if keys.len() < 2 {
        let mut order: Vec<usize> = Vec::new();
        if keys.len() == 1 {
            order.push(0);
        }
        return order;
    }
    sort_range(keys, 0, keys.len())
}

/// A stable order names every position.
pub proof fn lemma_order_covers(keys: Seq<Double>, order: Seq<usize>, k: int)
    requires
        is_stable_order(keys, order),
        0 <= k < keys.len(),
    ensures
        exists|i: int| 0 <= i < order.len() && #[trigger] order[i] == k,
{
    let places = Seq::new(order.len(), |i: int| order[i] as int);
    assert(places.no_duplicates());
    places.unique_seq_to_set();
    let all = vstd::set_lib::set_int_range(0, keys.len() as int);
    vstd::set_lib::lemma_int_range(0, keys.len() as int);
    assert(places.to_set().subset_of(all));
    vstd::set_lib::lemma_subset_equality(places.to_set(), all);
    assert(places.to_set().contains(k));
    let i = choose|i: int| 0 <= i < places.len() && places[i] == k;
    assert(order[i] == k);
}

/// Keys have one stable order only.
pub proof fn lemma_stable_order_unique(keys: Seq<Double>, a: Seq<usize>, b: Seq<usize>)
    requires
        is_stable_order(keys, a),
        is_stable_order(keys, b),
    ensures
        a == b,
{
    assert forall|i: int| 0 <= i < a.len() implies a[i] == b[i] by {
        lemma_orders_agree(keys, a, b, i);
    }
    assert(a =~= b);
}

proof fn lemma_orders_agree(keys: Seq<Double>, a: Seq<usize>, b: Seq<usize>, i: int)
    requires
        is_stable_order(keys, a),
        is_stable_order(keys, b),
        0 <= i < a.len(),
    ensures
        a[i] == b[i],
    decreases i,
{
    assert forall|j: int| 0 <= j < i implies a[j] == b[j] by {
        lemma_orders_agree(keys, a, b, j);
    }
    lemma_order_covers(keys, a, b[i] as int);
    lemma_order_covers(keys, b, a[i] as int);
    let j = choose|j: int| 0 <= j < a.len() && a[j] == b[i];
    let k = choose|k: int| 0 <= k < b.len() && b[k] == a[i];
    if j < i {
        assert(a[j] == b[j]);
    }
    if k < i {
        assert(a[k] == b[k]);
    }
}

/// Keys that can be put in order have a stable order.
pub proof fn lemma_order_exists(keys: Seq<Double>)
    requires
        comparable(keys),
        keys.len() <= usize::MAX,
    ensures
        is_stable_order(keys, order_of(keys)),
{
    let order = lemma_insertion(keys, keys.len());
    assert(is_stable_order(keys, order));
}

/// An order of the first `n` positions, by inserting one after the other.
proof fn lemma_insertion(keys: Seq<Double>, n: nat) -> (order: Seq<usize>)
    requires
        n <= keys.len() <= usize::MAX,
    ensures
        order.len() == n,
        ascending_within(keys, order, 0, n as int),
    decreases n,
{
    if n == 0 {
        Seq::empty()
    } else {
        let before = lemma_insertion(keys, (n - 1) as nat);
        let at = lemma_place(keys, before, (n - 1) as nat, before.len());
        before.insert(at as int, (n - 1) as usize)
    }
}

/// The place at which position `p` belongs among the first `m` of an ascending list of earlier
/// positions.
proof fn lemma_place(keys: Seq<Double>, order: Seq<usize>, p: nat, m: nat) -> (at: nat)
    requires
        ascending_within(keys, order, 0, p as int),
        m <= order.len(),
        forall|i: int| m <= i < order.len() ==> precedes(keys, p as int, #[trigger] order[i] as int),
    ensures
        at <= order.len(),
        forall|i: int| 0 <= i < at ==> precedes(keys, #[trigger] order[i] as int, p as int),
        forall|i: int| at <= i < order.len() ==> precedes(keys, p as int, #[trigger] order[i] as int),
    decreases m,
{
    if m == 0 {
        0
    } else if precedes(keys, order[m - 1] as int, p as int) {
        m
    } else {
        lemma_place(keys, order, p, (m - 1) as nat)
    }
}

} // verus!
