//! What holds of stacking as a whole.
use vstd::prelude::*;

use crate::binning::{
    answers, band_members, bands_comparable, by_time, evaluated_bands, is_binning, is_plan, joined,
    lemma_band_members, lemma_evaluated_bands, member_times, BandStack,
};
use crate::double::{Double, NINETY_NINE_BITS};
use crate::order::{comparable, lemma_order_covers, lemma_order_exists, order_of, precedes};
use crate::stacking::{
    bin_list, depths_comparable, is_run, is_stack_outcome, is_stacked, is_summary,
    stacked_observation, value_times, BinSummary, StackedSeries, StackedValues,
};
use crate::survey::{
    bands, observations, times, LightcurveEvaluation, ObservationView, SurveyObservation,
};
use crate::windows::{
    all_mags, all_observations, all_times, are_window_stacks, combinable, is_combined,
    is_multi_outcome, renumbered, row,
};

verus! {

/// Times do not descend.
pub open spec fn time_ordered(list: Seq<ObservationView>) -> bool {
    forall|p: int, q: int|
        0 <= p < q < list.len() ==> !(#[trigger] list[q]).mjd.below((#[trigger] list[p]).mjd)
}

/// Magnitudes and times belong to the exposures: there is one time for each exposure, its own;
/// every band has one magnitude for each exposure; the band of an exposure is there; and a
/// magnitude given for an exposure of another band is 99.
pub open spec fn aligned(series: StackedSeries) -> bool {
    let list = observations(series.observations@);
    let table = series.evaluation.apparent_mags@;
    &&& series.evaluation.times_mjd@ == times(list)
    &&& forall|b: Seq<char>| #[trigger] table.contains_key(b) ==> table[b].len() == list.len()
    &&& forall|p: int| 0 <= p < list.len() ==> table.contains_key((#[trigger] list[p]).band)
    &&& forall|b: Seq<char>, p: int|
        #![trigger table[b][p]]
        table.contains_key(b) && 0 <= p < list.len() && list[p].band != b ==> table[b][p] == (
        Double { bits: NINETY_NINE_BITS })
}

/// Stacked exposures are in order of time, and their magnitudes belong to them.
pub proof fn law_stacked_aligned(
    list: Seq<ObservationView>,
    summaries: Seq<BinSummary>,
    values: Seq<StackedValues>,
    series: StackedSeries,
)
    requires
        summaries.len() == values.len() <= usize::MAX,
        comparable(value_times(values)),
        is_stacked(list, summaries, values, series),
    ensures
        aligned(series),
        time_ordered(observations(series.observations@)),
{
    let keys = value_times(values);
    lemma_order_exists(keys);
    let order = order_of(keys);
    let stacked = observations(series.observations@);
    let table = series.evaluation.apparent_mags@;
    assert forall|p: int| 0 <= p < stacked.len() implies table.contains_key(
        (#[trigger] stacked[p]).band,
    ) by {
        assert(stacked[p] == stacked_observation(list, summaries, values, order[p] as int));
        assert(summaries[order[p] as int].band@ == stacked[p].band);
    }
    assert forall|b: Seq<char>, p: int|
        #![trigger table[b][p]]
        table.contains_key(b) && 0 <= p < stacked.len() && stacked[p].band != b implies table[b][p]
        == (Double { bits: NINETY_NINE_BITS }) by {
        assert(stacked[p] == stacked_observation(list, summaries, values, order[p] as int));
    }
    assert forall|p: int, q: int| 0 <= p < q < stacked.len() implies !(#[trigger] stacked[q]).mjd.below(
        (#[trigger] stacked[p]).mjd,
    ) by {
        assert(precedes(keys, order[p] as int, order[q] as int));
    }
}

/// Every stack of an evaluation covers the same bands: those that are observed and evaluated.
pub open spec fn same_bands(parts: Seq<StackedSeries>, names: Set<Seq<char>>) -> bool {
    forall|i: int|
        0 <= i < parts.len() ==> (#[trigger] parts[i]).evaluation.apparent_mags@.dom() == names
}

/// Every part is aligned.
pub open spec fn all_aligned(parts: Seq<StackedSeries>) -> bool {
    forall|i: int| 0 <= i < parts.len() ==> aligned(#[trigger] parts[i])
}

/// The measurements of aligned parts over the same bands, one after the other, are aligned.
pub(crate) proof fn lemma_parts_aligned(parts: Seq<StackedSeries>, names: Set<Seq<char>>)
    requires
        all_aligned(parts),
        same_bands(parts, names),
    ensures
        all_times(parts) == times(all_observations(parts)),
        parts.len() > 0 ==> all_mags(parts).dom() == names,
        parts.len() == 0 ==> all_mags(parts) == Map::<Seq<char>, Seq<Double>>::empty(),
        forall|b: Seq<char>|
            names.contains(b) ==> (#[trigger] row(all_mags(parts), b)).len() == all_observations(
                parts,
            ).len(),
        forall|p: int|
            0 <= p < all_observations(parts).len() ==> names.contains(
                (#[trigger] all_observations(parts)[p]).band,
            ),
        forall|b: Seq<char>, p: int|
            #![trigger row(all_mags(parts), b)[p]]
            names.contains(b) && 0 <= p < all_observations(parts).len() && all_observations(
                parts,
            )[p].band != b ==> row(all_mags(parts), b)[p] == (Double { bits: NINETY_NINE_BITS }),
    decreases parts.len(),
{
    if parts.len() == 0 {
        assert(all_times(parts) =~= times(all_observations(parts)));
    } else {
        let rest = parts.drop_last();
        let last = parts.last();
        assert(aligned(parts[parts.len() - 1]));
        assert(parts[parts.len() - 1].evaluation.apparent_mags@.dom() == names);
        assert forall|i: int| 0 <= i < rest.len() implies aligned(#[trigger] rest[i]) by {
            assert(parts[i] == rest[i]);
        }
        assert forall|i: int| 0 <= i < rest.len() implies (
        #[trigger] rest[i]).evaluation.apparent_mags@.dom() == names by {
            assert(parts[i] == rest[i]);
        }
        lemma_parts_aligned(rest, names);
        let before = all_observations(rest);
        let own = observations(last.observations@);
        let table = last.evaluation.apparent_mags@;
        assert(all_times(parts) =~= times(all_observations(parts)));
        assert(all_mags(parts).dom() =~= names);
        assert forall|b: Seq<char>| names.contains(b) implies #[trigger] row(all_mags(parts), b)
            == row(all_mags(rest), b) + table[b] by {
            assert(table.contains_key(b));
            assert(all_mags(parts).contains_key(b));
        }
        assert forall|b: Seq<char>| names.contains(b) implies (
        #[trigger] row(all_mags(parts), b)).len() == all_observations(parts).len() by {
            assert(table.contains_key(b));
            assert(row(all_mags(rest), b).len() == before.len());
        }
        assert forall|p: int| 0 <= p < all_observations(parts).len() implies names.contains(
            (#[trigger] all_observations(parts)[p]).band,
        ) by {
            if p < before.len() {
                assert(all_observations(parts)[p] == before[p]);
            } else {
                assert(all_observations(parts)[p] == own[p - before.len()]);
                assert(table.contains_key(own[p - before.len()].band));
            }
        }
        assert forall|b: Seq<char>, p: int|
            #![trigger row(all_mags(parts), b)[p]]
            names.contains(b) && 0 <= p < all_observations(parts).len() && all_observations(
                parts,
            )[p].band != b implies row(all_mags(parts), b)[p] == (Double {
            bits: NINETY_NINE_BITS,
        }) by {
            assert(table.contains_key(b));
            assert(row(all_mags(parts), b) == row(all_mags(rest), b) + table[b]);
            assert(row(all_mags(rest), b).len() == before.len());
            if p < before.len() {
                assert(all_observations(parts)[p] == before[p]);
                assert(row(all_mags(parts), b)[p] == row(all_mags(rest), b)[p]);
            } else {
                assert(all_observations(parts)[p] == own[p - before.len()]);
                assert(row(all_mags(parts), b)[p] == table[b][p - before.len()]);
            }
        }
    }
}

/// Aligned parts over the same bands can be taken together as soon as their times can be put in
/// order.
pub proof fn law_aligned_parts_combine(parts: Seq<StackedSeries>, names: Set<Seq<char>>)
    requires
        all_aligned(parts),
        same_bands(parts, names),
        comparable(times(all_observations(parts))),
    ensures
        combinable(parts),
{
    lemma_parts_aligned(parts, names);
    assert forall|b: Seq<char>| #[trigger] all_mags(parts).contains_key(b) implies all_mags(
        parts,
    )[b].len() >= all_observations(parts).len() by {
        assert(names.contains(b));
        assert(row(all_mags(parts), b).len() == all_observations(parts).len());
    }
}

/// Aligned parts over the same bands, taken together, are aligned and in order of time, and
/// exposures are numbered by their place.
pub proof fn law_combined_aligned(
    parts: Seq<StackedSeries>,
    names: Set<Seq<char>>,
    series: StackedSeries,
)
    requires
        all_aligned(parts),
        same_bands(parts, names),
        all_observations(parts).len() <= usize::MAX,
        combinable(parts),
        is_combined(parts, series),
    ensures
        aligned(series),
        time_ordered(observations(series.observations@)),
        forall|p: int|
            0 <= p < series.observations@.len() ==> (#[trigger] series.observations@[p]).obs_id == p,
{
    lemma_parts_aligned(parts, names);
    let all = all_observations(parts);
    let keys = times(all);
    lemma_order_exists(keys);
    let order = order_of(keys);
    let result = observations(series.observations@);
    let table = series.evaluation.apparent_mags@;
    assert(series.evaluation.times_mjd@ =~= times(result));
    assert forall|p: int| 0 <= p < result.len() implies table.contains_key(
        (#[trigger] result[p]).band,
    ) by {
        assert(names.contains(all[order[p] as int].band));
    }
    assert forall|b: Seq<char>, p: int|
        #![trigger table[b][p]]
        table.contains_key(b) && 0 <= p < result.len() && result[p].band != b implies table[b][p]
        == (Double { bits: NINETY_NINE_BITS }) by {
        let k = order[p] as int;
        assert(all_mags(parts).dom().contains(b));
        assert(row(all_mags(parts), b)[k] == (Double { bits: NINETY_NINE_BITS }));
    }
    assert forall|p: int, q: int| 0 <= p < q < result.len() implies !(#[trigger] result[q]).mjd.below(
        (#[trigger] result[p]).mjd,
    ) by {
        assert(precedes(keys, order[p] as int, order[q] as int));
        assert(keys[order[p] as int] == result[p].mjd);
        assert(keys[order[q] as int] == result[q].mjd);
    }
    assert forall|p: int| 0 <= p < series.observations@.len() implies (
    #[trigger] series.observations@[p]).obs_id == p by {
        assert(result[p].obs_id == p as u64);
    }
}

/// Taking windows together loses no measurement: every exposure of every part is there.
pub proof fn law_combined_keeps_all(parts: Seq<StackedSeries>, series: StackedSeries, k: int)
    requires
        all_observations(parts).len() <= usize::MAX,
        combinable(parts),
        is_combined(parts, series),
        0 <= k < all_observations(parts).len(),
    ensures
        series.observations@.len() == all_observations(parts).len(),
        exists|p: int|
            0 <= p < series.observations@.len() && renumbered(
                all_observations(parts)[k],
                p,
            ) == (#[trigger] series.observations@[p])@,
{
    let keys = times(all_observations(parts));
    lemma_order_exists(keys);
    lemma_order_covers(keys, order_of(keys), k);
    let p = choose|p: int| 0 <= p < order_of(keys).len() && #[trigger] order_of(keys)[p] == k;
    assert(observations(series.observations@)[p] == series.observations@[p]@);
}

/// The place of a member of a bin in the order that was cut.
pub open spec fn place(bins: Seq<Vec<usize>>, k: int, i: int) -> int
    decreases bins.len(),
{
    if bins.len() == 0 || k >= bins.len() - 1 {
        joined(bins.drop_last()).len() + i
    } else {
        place(bins.drop_last(), k, i)
    }
}

/// A bin's members stand in the order one after the other, and different members in different
/// places.
pub(crate) proof fn lemma_place(bins: Seq<Vec<usize>>, k: int, i: int)
    requires
        0 <= k < bins.len(),
        0 <= i < bins[k]@.len(),
    ensures
        0 <= place(bins, k, i) < joined(bins).len(),
        joined(bins)[place(bins, k, i)] == bins[k]@[i],
    decreases bins.len(),
{
    if k < bins.len() - 1 {
        lemma_place(bins.drop_last(), k, i);
    }
}

proof fn lemma_place_injective(bins: Seq<Vec<usize>>, k: int, i: int, l: int, j: int)
    requires
        0 <= k < bins.len(),
        0 <= i < bins[k]@.len(),
        0 <= l < bins.len(),
        0 <= j < bins[l]@.len(),
        place(bins, k, i) == place(bins, l, j),
    ensures
        k == l,
        i == j,
    decreases bins.len(),
{
    let rest = bins.drop_last();
    if k < bins.len() - 1 {
        lemma_place(rest, k, i);
    }
    if l < bins.len() - 1 {
        lemma_place(rest, l, j);
    }
    if k < bins.len() - 1 && l < bins.len() - 1 {
        lemma_place_injective(rest, k, i, l, j);
    }
}

/// Every place of the order belongs to a bin.
proof fn lemma_place_onto(bins: Seq<Vec<usize>>, q: int) -> (at: (int, int))
    requires
        0 <= q < joined(bins).len(),
    ensures
        0 <= at.0 < bins.len(),
        0 <= at.1 < bins[at.0]@.len(),
        bins[at.0]@[at.1] == joined(bins)[q],
    decreases bins.len(),
{
    let rest = bins.drop_last();
    if q < joined(rest).len() {
        let at = lemma_place_onto(rest, q);
        assert(bins[at.0] == rest[at.0]);
        at
    } else {
        (bins.len() - 1, q - joined(rest).len())
    }
}

/// The exposures of a band, in order of time, are each there once.
pub(crate) proof fn lemma_by_time(list: Seq<ObservationView>, band: Seq<char>)
    requires
        list.len() <= usize::MAX,
        comparable(member_times(list, band_members(bands(list), band))),
    ensures
        by_time(list, band_members(bands(list), band)).no_duplicates(),
        forall|p: int|
            0 <= p < list.len() && (#[trigger] list[p]).band == band ==> by_time(
                list,
                band_members(bands(list), band),
            ).contains(p as usize),
        forall|i: int|
            0 <= i < by_time(list, band_members(bands(list), band)).len() ==> (#[trigger] by_time(
                list,
                band_members(bands(list), band),
            )[i]) < list.len() && list[by_time(list, band_members(bands(list), band))[i] as int].band
                == band,
{
    let names = bands(list);
    let members = band_members(names, band);
    lemma_band_members(names, band);
    let keys = member_times(list, members);
    lemma_order_exists(keys);
    let order = order_of(keys);
    let sorted = by_time(list, members);
    assert forall|i: int, j: int| 0 <= i < sorted.len() && 0 <= j < sorted.len() && i != j implies
        sorted[i] != sorted[j] by {
        if i < j {
            assert(precedes(keys, order[i] as int, order[j] as int));
        } else {
            assert(precedes(keys, order[j] as int, order[i] as int));
        }
        assert(order[i] != order[j]);
        if order[i] < order[j] {
            assert(members[order[i] as int] < members[order[j] as int]);
        } else {
            assert(members[order[j] as int] < members[order[i] as int]);
        }
    }
    assert forall|p: int| 0 <= p < list.len() && (#[trigger] list[p]).band == band implies sorted.contains(
        p as usize,
    ) by {
        assert(names[p] == band);
        assert(members.contains(p as usize));
        let m = choose|m: int| 0 <= m < members.len() && members[m] == p as usize;
        lemma_order_covers(keys, order, m);
        let i = choose|i: int| 0 <= i < order.len() && #[trigger] order[i] == m;
        assert(sorted[i] == p as usize);
    }
    assert forall|i: int| 0 <= i < sorted.len() implies (#[trigger] sorted[i]) < list.len()
        && list[sorted[i] as int].band == band by {
        assert(sorted[i] == members[order[i] as int]);
        assert(names[members[order[i] as int] as int] == band);
    }
}

/// Binning partitions the exposures of the evaluated bands: an exposure is a member of some bin
/// of its own band if and only if its band is evaluated.
pub proof fn law_bins_cover<L: Fn(Double, Double) -> Double>(
    elapsed: &L,
    window: Double,
    list: Seq<ObservationView>,
    mags: Map<Seq<char>, Seq<Double>>,
    stacks: Seq<BandStack>,
    p: int,
)
    requires
        list.len() <= usize::MAX,
        bands_comparable(list),
        is_plan(elapsed, window, list, mags, stacks),
        0 <= p < list.len(),
    ensures
        mags.contains_key(list[p].band) <==> exists|g: int, k: int, i: int|
            is_member(stacks, g, k, i, p),
        forall|g: int, k: int, i: int| #[trigger]
            is_member(stacks, g, k, i, p) ==> stacks[g].band@ == list[p].band,
{
    let names = bands(list);
    lemma_evaluated_bands(names, mags);
    let listed = evaluated_bands(names, mags);
    assert forall|g: int, k: int, i: int| #[trigger] is_member(stacks, g, k, i, p) implies stacks[g].band@
        == list[p].band && mags.contains_key(list[p].band) by {
        let band = stacks[g].band@;
        assert(listed[g] == band);
        assert(listed.contains(band));
        lemma_by_time(list, band);
        lemma_place(stacks[g].bins@, k, i);
    }
    if mags.contains_key(list[p].band) {
        let band = list[p].band;
        assert(names[p] == band);
        assert(names.contains(band));
        assert(listed.contains(band));
        let g = choose|g: int| 0 <= g < listed.len() && listed[g] == band;
        assert(stacks[g].band@ == band);
        lemma_by_time(list, band);
        let sorted = by_time(list, band_members(names, band));
        let q = choose|q: int| 0 <= q < sorted.len() && sorted[q] == p as usize;
        assert(joined(stacks[g].bins@) == sorted);
        let at = lemma_place_onto(stacks[g].bins@, q);
        assert(is_member(stacks, g, at.0, at.1, p));
    }
}

/// Exposure `p` is member `i` of bin `k` of the stack at `g`.
pub open spec fn is_member(stacks: Seq<BandStack>, g: int, k: int, i: int, p: int) -> bool {
    &&& 0 <= g < stacks.len()
    &&& 0 <= k < stacks[g].bins@.len()
    &&& 0 <= i < stacks[g].bins@[k]@.len()
    &&& stacks[g].bins@[k]@[i] == p
}

/// No exposure is a member of two bins, nor twice of one.
pub proof fn law_bins_disjoint<L: Fn(Double, Double) -> Double>(
    elapsed: &L,
    window: Double,
    list: Seq<ObservationView>,
    mags: Map<Seq<char>, Seq<Double>>,
    stacks: Seq<BandStack>,
    p: int,
    first: (int, int, int),
    second: (int, int, int),
)
    requires
        list.len() <= usize::MAX,
        bands_comparable(list),
        is_plan(elapsed, window, list, mags, stacks),
        0 <= p < list.len(),
        is_member(stacks, first.0, first.1, first.2, p),
        is_member(stacks, second.0, second.1, second.2, p),
    ensures
        first == second,
{
    let names = bands(list);
    lemma_evaluated_bands(names, mags);
    let listed = evaluated_bands(names, mags);
    law_bins_cover(elapsed, window, list, mags, stacks, p);
    let band = list[p].band;
    assert(stacks[first.0].band@ == band);
    assert(stacks[second.0].band@ == band);
    assert(listed[first.0] == listed[second.0]);
    assert(first.0 == second.0);
    let bins = stacks[first.0].bins@;
    assert(listed.contains(band));
    lemma_by_time(list, band);
    lemma_place(bins, first.1, first.2);
    lemma_place(bins, second.1, second.2);
    lemma_place_injective(bins, first.1, first.2, second.1, second.2);
}

/// The time that passes depends on its ends alone.
pub open spec fn is_fixed_time<L: Fn(Double, Double) -> Double>(elapsed: &L) -> bool {
    forall|t: Double, start: Double, d: Double, e: Double| #[trigger]
        call_ensures(*elapsed, (t, start), d) && #[trigger] call_ensures(*elapsed, (t, start), e)
            ==> d == e
}

/// With times that depend on their ends alone, an order can be cut in one way only.
pub proof fn law_binning_unique<L: Fn(Double, Double) -> Double>(
    elapsed: &L,
    window: Double,
    list: Seq<ObservationView>,
    order: Seq<usize>,
    a: Seq<Vec<usize>>,
    b: Seq<Vec<usize>>,
)
    requires
        is_fixed_time(elapsed),
        is_binning(elapsed, window, list, order, a),
        is_binning(elapsed, window, list, order, b),
    ensures
        a.len() == b.len(),
        forall|k: int| 0 <= k < a.len() ==> (#[trigger] a[k])@ == b[k]@,
{
    lemma_cut_agrees(elapsed, window, list, order, a, b, a.len());
    lemma_cut_agrees(elapsed, window, list, order, b, a, b.len());
    if a.len() < b.len() {
        lemma_joined_split(b, a.len() as int);
        assert(joined(b.take(a.len() as int)) == joined(a)) by {
            lemma_joined_same(a, b.take(a.len() as int));
        }
        assert(b[a.len() as int]@.len() > 0);
    }
    if b.len() < a.len() {
        lemma_joined_split(a, b.len() as int);
        assert(joined(a.take(b.len() as int)) == joined(b)) by {
            lemma_joined_same(b, a.take(b.len() as int));
        }
        assert(a[b.len() as int]@.len() > 0);
    }
}

/// Lists of equal bins join to the same order.
proof fn lemma_joined_same(a: Seq<Vec<usize>>, b: Seq<Vec<usize>>)
    requires
        a.len() == b.len(),
        forall|k: int| 0 <= k < a.len() ==> (#[trigger] a[k])@ == b[k]@,
    ensures
        joined(a) == joined(b),
    decreases a.len(),
{
    if a.len() > 0 {
        let (x, y) = (a.drop_last(), b.drop_last());
        assert forall|k: int| 0 <= k < x.len() implies (#[trigger] x[k])@ == y[k]@ by {
            assert(a[k]@ == b[k]@);
        }
        lemma_joined_same(x, y);
        assert(a[a.len() - 1]@ == b[a.len() - 1]@);
    }
}

/// The first `k` bins are followed by bin `k` and what comes after it.
pub proof fn lemma_joined_split(bins: Seq<Vec<usize>>, k: int)
    requires
        0 <= k < bins.len(),
    ensures
        joined(bins).len() >= joined(bins.take(k)).len() + bins[k]@.len(),
        joined(bins.take(k)).is_prefix_of(joined(bins)),
        forall|i: int|
            0 <= i < bins[k]@.len() ==> joined(bins)[joined(bins.take(k)).len() + i]
                == #[trigger] bins[k]@[i],
        k + 1 < bins.len() ==> joined(bins).len() >= joined(bins.take(k)).len() + bins[k]@.len()
            + bins[k + 1]@.len(),
        k + 1 < bins.len() && bins[k + 1]@.len() > 0 ==> joined(bins)[(joined(
            bins.take(k),
        ).len() + bins[k]@.len()) as int] == bins[k + 1]@[0],
        k + 1 == bins.len() ==> joined(bins).len() == joined(bins.take(k)).len() + bins[k]@.len(),
    decreases bins.len(),
{
    let rest = bins.drop_last();
    if k < rest.len() {
        lemma_joined_split(rest, k);
        assert(rest.take(k) =~= bins.take(k));
        assert forall|i: int| 0 <= i < bins[k]@.len() implies joined(bins)[joined(
            bins.take(k),
        ).len() + i] == #[trigger] bins[k]@[i] by {
            assert(rest[k]@[i] == joined(rest)[joined(rest.take(k)).len() + i]);
        }
    } else {
        assert(rest =~= bins.take(k));
    }
}

/// The first `n` bins of `a` are those of `b`.
proof fn lemma_cut_agrees<L: Fn(Double, Double) -> Double>(
    elapsed: &L,
    window: Double,
    list: Seq<ObservationView>,
    order: Seq<usize>,
    a: Seq<Vec<usize>>,
    b: Seq<Vec<usize>>,
    n: nat,
)
    requires
        is_fixed_time(elapsed),
        is_binning(elapsed, window, list, order, a),
        is_binning(elapsed, window, list, order, b),
        n <= a.len(),
    ensures
        forall|k: int| 0 <= k < n && k < b.len() ==> (#[trigger] a[k])@ == b[k]@,
    decreases n,
{
    if n > 0 && n <= b.len() {
        let k = n - 1;
        lemma_cut_agrees(elapsed, window, list, order, a, b, k as nat);
        lemma_joined_same(a.take(k), b.take(k));
        lemma_joined_split(a, k);
        lemma_joined_split(b, k);
        let base = joined(a.take(k)).len();
        let (x, y) = (a[k]@, b[k]@);
        assert(x.len() > 0 && y.len() > 0);
        assert(x[0] == order[base as int]);
        assert(y[0] == order[base as int]);
        if x.len() < y.len() {
            if k + 1 < a.len() {
                assert(a[k + 1]@.len() > 0);
                assert(a[k + 1]@[0] == order[(base + x.len()) as int]);
                assert(b[k]@[x.len() as int] == order[(base + x.len()) as int]);
                assert(answers(elapsed, window, list, a[k + 1]@[0], a[k]@[0], false));
                assert(answers(
                    elapsed,
                    window,
                    list,
                    b[k]@[x.len() as int],
                    b[k]@[0],
                    true,
                ));
            }
            assert(false);
        }
        if y.len() < x.len() {
            if k + 1 < b.len() {
                assert(b[k + 1]@.len() > 0);
                assert(b[k + 1]@[0] == order[(base + y.len()) as int]);
                assert(a[k]@[y.len() as int] == order[(base + y.len()) as int]);
                assert(answers(elapsed, window, list, b[k + 1]@[0], b[k]@[0], false));
                assert(answers(
                    elapsed,
                    window,
                    list,
                    a[k]@[y.len() as int],
                    a[k]@[0],
                    true,
                ));
            }
            assert(false);
        }
        assert forall|i: int| 0 <= i < x.len() implies x[i] == y[i] by {
            assert(a[k]@[i] == order[base + i]);
            assert(b[k]@[i] == order[base + i]);
        }
        assert(x =~= y);
    } else if n > 0 {
        lemma_cut_agrees(elapsed, window, list, order, a, b, (n - 1) as nat);
    }
}

/// The bands that are observed and evaluated.
pub open spec fn measured_bands(
    list: Seq<ObservationView>,
    mags: Map<Seq<char>, Seq<Double>>,
) -> Set<Seq<char>> {
    Set::new(|b: Seq<char>| bands(list).contains(b) && mags.contains_key(b))
}

/// The labels of all bins are the bands of the stacks that have bins.
proof fn lemma_labels(stacks: Seq<BandStack>, band: Seq<char>)
    ensures
        (exists|k: int| 0 <= k < bin_list(stacks).len() && (#[trigger] bin_list(stacks)[k]).0 == band)
            <==> (exists|g: int|
            0 <= g < stacks.len() && (#[trigger] stacks[g]).band@ == band && stacks[g].bins@.len()
                > 0),
    decreases stacks.len(),
{
    if stacks.len() > 0 {
        let rest = stacks.drop_last();
        let last = stacks.last();
        let before = bin_list(rest);
        lemma_labels(rest, band);
        if exists|k: int| 0 <= k < bin_list(stacks).len() && (#[trigger] bin_list(stacks)[k]).0 == band {
            let k = choose|k: int|
                0 <= k < bin_list(stacks).len() && (#[trigger] bin_list(stacks)[k]).0 == band;
            if k < before.len() {
                assert(before[k].0 == band);
                let g = choose|g: int|
                    0 <= g < rest.len() && (#[trigger] rest[g]).band@ == band && rest[g].bins@.len() > 0;
                assert(stacks[g].band@ == band);
            } else {
                assert(stacks[stacks.len() - 1].band@ == band);
            }
        }
        if exists|g: int|
            0 <= g < stacks.len() && (#[trigger] stacks[g]).band@ == band && stacks[g].bins@.len() > 0 {
            let g = choose|g: int|
                0 <= g < stacks.len() && (#[trigger] stacks[g]).band@ == band
                    && stacks[g].bins@.len() > 0;
            if g < rest.len() {
                assert(rest[g].band@ == band);
                let k = choose|k: int| 0 <= k < before.len() && (#[trigger] before[k]).0 == band;
                assert(bin_list(stacks)[k].0 == band);
            } else {
                assert(bin_list(stacks)[before.len() as int].0 == band);
            }
        }
    }
}

/// A stack of two or more exposures gives magnitudes for the bands that are observed and
/// evaluated, and for no others.
pub proof fn law_stack_bands<
    L: Fn(Double, Double) -> Double,
    C: Fn(&BinSummary) -> StackedValues,
>(
    elapsed: &L,
    average: &C,
    window: Double,
    eval: &LightcurveEvaluation,
    raw_obs: Seq<SurveyObservation>,
    series: StackedSeries,
)
    requires
        2 <= raw_obs.len() <= usize::MAX,
        is_stack_outcome(elapsed, average, window, eval, raw_obs, series),
    ensures
        series.evaluation.apparent_mags@.dom() == measured_bands(
            observations(raw_obs),
            eval.apparent_mags@,
        ),
        aligned(series),
        time_ordered(observations(series.observations@)),
{
    let list = observations(raw_obs);
    let mags = eval.apparent_mags@;
    let (stacks, summaries, values) = choose|
        stacks: Seq<BandStack>,
        summaries: Seq<BinSummary>,
        values: Seq<StackedValues>,
    | #[trigger]
        is_run(elapsed, average, window, list, mags, stacks, summaries, values)
            && depths_comparable(list, bin_list(stacks)) && comparable(
            value_times(values),
        ) && is_stacked(list, summaries, values, series);
    assert(series.observations.len() == values.len());
    law_stacked_aligned(list, summaries, values, series);
    let names = bands(list);
    lemma_evaluated_bands(names, mags);
    let table = series.evaluation.apparent_mags@;
    assert forall|b: Seq<char>| table.dom().contains(b) <==> measured_bands(list, mags).contains(b) by {
        lemma_labels(stacks, b);
        if table.contains_key(b) {
            let k = choose|k: int|
                0 <= k < summaries.len() && (#[trigger] summaries[k]).band@ == b;
            assert(is_summary(list, mags, bin_list(stacks)[k], summaries[k]));
            assert(bin_list(stacks)[k].0 == b);
            let g = choose|g: int|
                0 <= g < stacks.len() && (#[trigger] stacks[g]).band@ == b && stacks[g].bins@.len()
                    > 0;
            assert(evaluated_bands(names, mags)[g] == b);
            assert(evaluated_bands(names, mags).contains(b));
        }
        if measured_bands(list, mags).contains(b) {
            assert(evaluated_bands(names, mags).contains(b));
            let g = choose|g: int|
                0 <= g < evaluated_bands(names, mags).len() && evaluated_bands(names, mags)[g] == b;
            assert(stacks[g].band@ == b);
            lemma_band_members(names, b);
            assert(joined(stacks[g].bins@).len() > 0);
            let k = choose|k: int|
                0 <= k < bin_list(stacks).len() && (#[trigger] bin_list(stacks)[k]).0 == b;
            assert(is_summary(list, mags, bin_list(stacks)[k], summaries[k]));
            assert(summaries[k].band@ == b);
        }
    }
    assert(table.dom() =~= measured_bands(list, mags));
}

/// Which bin of which stack stands at place `k` of the list of all bins.
pub open spec fn bin_at(stacks: Seq<BandStack>, k: int) -> (int, int)
    decreases stacks.len(),
{
    if stacks.len() == 0 {
        (0, 0)
    } else {
        let before = bin_list(stacks.drop_last()).len();
        if k < before {
            bin_at(stacks.drop_last(), k)
        } else {
            (stacks.len() - 1, k - before)
        }
    }
}

pub(crate) proof fn lemma_bin_at(stacks: Seq<BandStack>, k: int)
    requires
        0 <= k < bin_list(stacks).len(),
    ensures
        ({
            let (g, i) = bin_at(stacks, k);
            &&& 0 <= g < stacks.len()
            &&& 0 <= i < stacks[g].bins@.len()
            &&& bin_list(stacks)[k] == (stacks[g].band@, stacks[g].bins@[i]@)
        }),
    decreases stacks.len(),
{
    if stacks.len() > 0 {
        let rest = stacks.drop_last();
        if k < bin_list(rest).len() {
            lemma_bin_at(rest, k);
            let (g, i) = bin_at(rest, k);
            assert(rest[g] == stacks[g]);
        }
    }
}

pub(crate) proof fn lemma_bin_at_injective(stacks: Seq<BandStack>, k: int, l: int)
    requires
        0 <= k < bin_list(stacks).len(),
        0 <= l < bin_list(stacks).len(),
        bin_at(stacks, k) == bin_at(stacks, l),
    ensures
        k == l,
    decreases stacks.len(),
{
    if stacks.len() > 0 {
        let rest = stacks.drop_last();
        if k < bin_list(rest).len() {
            lemma_bin_at(rest, k);
        }
        if l < bin_list(rest).len() {
            lemma_bin_at(rest, l);
        }
        if k < bin_list(rest).len() && l < bin_list(rest).len() {
            lemma_bin_at_injective(rest, k, l);
        }
    }
}

/// A stack has no more exposures than were stacked.
pub proof fn law_stack_not_longer<
    L: Fn(Double, Double) -> Double,
    C: Fn(&BinSummary) -> StackedValues,
>(
    elapsed: &L,
    average: &C,
    window: Double,
    eval: &LightcurveEvaluation,
    raw_obs: Seq<SurveyObservation>,
    series: StackedSeries,
)
    requires
        raw_obs.len() <= usize::MAX,
        is_stack_outcome(elapsed, average, window, eval, raw_obs, series),
    ensures
        series.observations@.len() <= raw_obs.len(),
{
    if raw_obs.len() >= 2 {
        let list = observations(raw_obs);
        let mags = eval.apparent_mags@;
        let (stacks, summaries, values) = choose|
            stacks: Seq<BandStack>,
            summaries: Seq<BinSummary>,
            values: Seq<StackedValues>,
        | #[trigger]
            is_run(elapsed, average, window, list, mags, stacks, summaries, values)
                && is_stacked(list, summaries, values, series);
        let bins = bin_list(stacks);
        assert(observations(series.observations@).len() == bins.len());
        let firsts = Seq::new(bins.len(), |k: int| bins[k].1[0] as int);
        lemma_evaluated_bands(bands(list), mags);
        assert forall|k: int| 0 <= k < bins.len() implies {
            &&& 0 <= (#[trigger] firsts[k]) < list.len()
            &&& is_member(stacks, bin_at(stacks, k).0, bin_at(stacks, k).1, 0, firsts[k])
        } by {
            lemma_bin_at(stacks, k);
            let (g, i) = bin_at(stacks, k);
            let band = stacks[g].band@;
            assert(evaluated_bands(bands(list), mags)[g] == band);
            assert(evaluated_bands(bands(list), mags).contains(band));
            lemma_by_time(list, band);
            assert(stacks[g].bins@[i]@.len() > 0);
            lemma_place(stacks[g].bins@, i, 0);
        }
        assert forall|k: int, l: int|
            0 <= k < firsts.len() && 0 <= l < firsts.len() && k != l implies firsts[k]
            != firsts[l] by {
            let (g, i) = bin_at(stacks, k);
            let (h, j) = bin_at(stacks, l);
            assert(is_member(stacks, g, i, 0, firsts[k]));
            assert(is_member(stacks, h, j, 0, firsts[l]));
            if firsts[k] == firsts[l] {
                law_bins_disjoint(elapsed, window, list, mags, stacks, firsts[k], (g, i, 0), (h, j, 0));
                lemma_bin_at_injective(stacks, k, l);
            }
        }
        assert(firsts.no_duplicates());
        firsts.unique_seq_to_set();
        let all = vstd::set_lib::set_int_range(0, list.len() as int);
        vstd::set_lib::lemma_int_range(0, list.len() as int);
        assert(firsts.to_set().subset_of(all));
        vstd::set_lib::lemma_len_subset(firsts.to_set(), all);
    }
}

/// Whatever the windows, stacking two or more exposures gives measurements in order of time
/// with magnitudes that belong to them, for the bands that are observed and evaluated.
pub proof fn law_multi_window_aligned<
    L: Fn(Double, Double) -> Double,
    C: Fn(&BinSummary) -> StackedValues,
>(
    elapsed: &L,
    average: &C,
    windows: Seq<Double>,
    eval: &LightcurveEvaluation,
    raw_obs: Seq<SurveyObservation>,
    series: StackedSeries,
)
    requires
        2 <= raw_obs.len() <= usize::MAX,
        windows.len() >= 1,
        is_multi_outcome(elapsed, average, windows, eval, raw_obs, series),
    ensures
        series.evaluation.apparent_mags@.dom() == measured_bands(
            observations(raw_obs),
            eval.apparent_mags@,
        ),
        aligned(series),
        time_ordered(observations(series.observations@)),
{
    let names = measured_bands(observations(raw_obs), eval.apparent_mags@);
    if windows.len() == 1 {
        law_stack_bands(elapsed, average, windows[0], eval, raw_obs, series);
    } else {
        let parts = choose|parts: Seq<StackedSeries>| #[trigger]
            are_window_stacks(elapsed, average, windows, eval, raw_obs, parts) && combinable(parts)
                && is_combined(parts, series);
        assert forall|i: int| 0 <= i < parts.len() implies aligned(#[trigger] parts[i])
            && parts[i].evaluation.apparent_mags@.dom() == names by {
            law_stack_bands(elapsed, average, windows[i], eval, raw_obs, parts[i]);
        }
        assert(series.observations.len() == all_observations(parts).len());
        law_combined_aligned(parts, names, series);
        lemma_parts_aligned(parts, names);
    }
}

} // verus!
