//! Stacking at a shorter and at a longer window.
use vstd::prelude::*;
use vstd::seq_lib::lemma_multiset_commutative;

use crate::binning::{
    answers, band_members, by_time, evaluated_bands, is_binning, is_plan, joined,
    lemma_band_members, member_times, BandStack,
};
use crate::double::Double;
use crate::order::{comparable, lemma_order_exists, order_of, precedes};
use crate::stacking::{
    are_summaries, bin_list, is_run, is_stack_outcome, is_stacked, is_summary, labelled,
    stacked_observation, value_times, BinSummary, StackedSeries, StackedValues,
};
use crate::stacking_laws::lemma_joined_split;
use crate::stacking_repeats::{lemma_rearranged, rearranged};
use crate::survey::{
    bands, observations, LightcurveEvaluation, ObservationView, SurveyObservation,
};
use crate::windows::is_multi_outcome;

verus! {

/// The time from an earlier start is no shorter.
pub open spec fn grows_backwards<L: Fn(Double, Double) -> Double>(elapsed: &L) -> bool {
    forall|t: Double, early: Double, late: Double, d: Double, e: Double|
        t.finite() && early.finite() && late.finite() && early.at_most(late)
            && #[trigger] call_ensures(*elapsed, (t, early), d) && #[trigger] call_ensures(
            *elapsed,
            (t, late),
            e,
        ) ==> e.at_most(d)
}

/// All times are finite.
pub open spec fn have_finite_times(list: Seq<ObservationView>) -> bool {
    forall|i: int| 0 <= i < list.len() ==> (#[trigger] list[i]).mjd.finite()
}

/// Positions by ascending time.
pub open spec fn is_by_time(list: Seq<ObservationView>, order: Seq<usize>) -> bool {
    &&& forall|i: int| 0 <= i < order.len() ==> #[trigger] order[i] < list.len()
    &&& forall|i: int, j: int|
        0 <= i < j < order.len() ==> list[#[trigger] order[i] as int].mjd.at_most(
            list[#[trigger] order[j] as int].mjd,
        )
}

/// Where bin `k` opens in the order that was cut.
pub open spec fn opening(bins: Seq<Vec<usize>>, k: int) -> int {
    joined(bins.take(k)).len() as int
}

/// A bin opens where the one before it ends, and its members follow one another.
proof fn lemma_opening(bins: Seq<Vec<usize>>, k: int)
    requires
        0 <= k < bins.len(),
        forall|i: int| 0 <= i < bins.len() ==> (#[trigger] bins[i])@.len() > 0,
    ensures
        0 <= opening(bins, k) < joined(bins).len(),
        joined(bins)[opening(bins, k)] == bins[k]@[0],
        forall|i: int|
            0 <= i < bins[k]@.len() ==> joined(bins)[opening(bins, k) + i] == #[trigger] bins[k]@[i],
        opening(bins, k) + bins[k]@.len() <= joined(bins).len(),
        k + 1 < bins.len() ==> opening(bins, k + 1) == opening(bins, k) + bins[k]@.len(),
        k + 1 == bins.len() ==> joined(bins).len() == opening(bins, k) + bins[k]@.len(),
{
    lemma_joined_split(bins, k);
    assert(bins[k]@.len() > 0);
    assert(bins[k]@[0] == joined(bins)[opening(bins, k) + 0]);
    if k + 1 < bins.len() {
        assert(bins.take(k + 1).drop_last() =~= bins.take(k));
    }
}

/// Bin `k` of the longer window opens no earlier than bin `k` of the shorter one, which is there.
proof fn lemma_openings<L: Fn(Double, Double) -> Double>(
    elapsed: &L,
    short: Double,
    long: Double,
    list: Seq<ObservationView>,
    order: Seq<usize>,
    a: Seq<Vec<usize>>,
    b: Seq<Vec<usize>>,
    k: int,
)
    requires
        grows_backwards(elapsed),
        short.at_most(long),
        have_finite_times(list),
        is_by_time(list, order),
        is_binning(elapsed, short, list, order, a),
        is_binning(elapsed, long, list, order, b),
        0 <= k < b.len(),
    ensures
        k < a.len(),
        opening(a, k) <= opening(b, k),
    decreases k,
{
    if k == 0 {
        lemma_opening(b, 0);
        assert(order.len() > 0);
        if a.len() == 0 {
            assert(joined(a).len() == 0);
        }
        assert(a.take(0) =~= Seq::empty());
    } else {
        lemma_openings(elapsed, short, long, list, order, a, b, k - 1);
        lemma_opening(a, k - 1);
        lemma_opening(b, k - 1);
        lemma_opening(b, k);
        let (s, t) = (opening(a, k - 1), opening(b, k - 1));
        let p = opening(b, k);
        // The opening at `p` is out of reach of the one at `t`, and so of the earlier one at `s`.
        assert(answers(elapsed, long, list, b[k]@[0], b[k - 1]@[0], false));
        let e = choose|time: Double| #[trigger]
            call_ensures(
                *elapsed,
                (list[order[p] as int].mjd, list[order[t] as int].mjd),
                time,
            ) && false == time.at_most(long);
        if p < s + a[k - 1]@.len() {
            let i = p - s;
            assert(a[k - 1]@[i] == order[p]);
            assert(answers(elapsed, short, list, a[k - 1]@[i], a[k - 1]@[0], true));
            let d = choose|time: Double| #[trigger]
                call_ensures(
                    *elapsed,
                    (list[order[p] as int].mjd, list[order[s] as int].mjd),
                    time,
                ) && true == time.at_most(short);
            assert(list[order[s] as int].mjd.at_most(list[order[t] as int].mjd)) by {
                assert(list[order[s] as int].mjd.finite());
                if s < t {
                    assert(order[s] < list.len() && order[t] < list.len());
                }
            }
            assert(e.at_most(d));
            assert(!d.at_most(short));
        }
        assert(p >= s + a[k - 1]@.len());
        if k < a.len() {
            assert(opening(a, k) == s + a[k - 1]@.len());
        } else {
            assert(joined(a).len() == s + a[k - 1]@.len());
        }
    }
}

/// In one band, a longer window never gives more bins.
pub proof fn law_longer_window_in_band<L: Fn(Double, Double) -> Double>(
    elapsed: &L,
    short: Double,
    long: Double,
    list: Seq<ObservationView>,
    order: Seq<usize>,
    a: Seq<Vec<usize>>,
    b: Seq<Vec<usize>>,
)
    requires
        grows_backwards(elapsed),
        short.at_most(long),
        have_finite_times(list),
        is_by_time(list, order),
        is_binning(elapsed, short, list, order, a),
        is_binning(elapsed, long, list, order, b),
    ensures
        b.len() <= a.len(),
{
    if b.len() > 0 {
        lemma_openings(elapsed, short, long, list, order, a, b, b.len() - 1);
    }
}

/// The exposures of a band are put in order of time.
proof fn lemma_members_by_time(list: Seq<ObservationView>, band: Seq<char>)
    requires
        list.len() <= usize::MAX,
        have_finite_times(list),
    ensures
        is_by_time(list, by_time(list, band_members(bands(list), band))),
{
    let names = bands(list);
    let members = band_members(names, band);
    lemma_band_members(names, band);
    let keys = member_times(list, members);
    assert forall|i: int| 0 <= i < keys.len() implies !(#[trigger] keys[i]).nan() by {
        assert(members[i] < names.len());
        assert(list[members[i] as int].mjd.finite());
    }
    assert(comparable(keys));
    lemma_order_exists(keys);
    let order = order_of(keys);
    let sorted = by_time(list, members);
    assert forall|i: int| 0 <= i < sorted.len() implies #[trigger] sorted[i] < list.len() by {
        assert(members[order[i] as int] < names.len());
    }
    assert forall|i: int, j: int| 0 <= i < j < sorted.len() implies list[
        #[trigger] sorted[i] as int
    ].mjd.at_most(list[#[trigger] sorted[j] as int].mjd) by {
        assert(precedes(keys, order[i] as int, order[j] as int));
        assert(!keys[order[i] as int].nan());
        assert(!keys[order[j] as int].nan());
    }
}

/// Stacks with no more bins band by band have no more bins in all.
proof fn lemma_fewer_bins(a: Seq<BandStack>, b: Seq<BandStack>)
    requires
        a.len() == b.len(),
        forall|g: int| 0 <= g < a.len() ==> (#[trigger] b[g]).bins@.len() <= a[g].bins@.len(),
    ensures
        bin_list(b).len() <= bin_list(a).len(),
    decreases a.len(),
{
    if a.len() > 0 {
        let (x, y) = (a.drop_last(), b.drop_last());
        assert forall|g: int| 0 <= g < x.len() implies (#[trigger] y[g]).bins@.len()
            <= x[g].bins@.len() by {
            assert(b[g].bins@.len() <= a[g].bins@.len());
        }
        lemma_fewer_bins(x, y);
        assert(b[b.len() - 1].bins@.len() <= a[b.len() - 1].bins@.len());
    }
}

/// A longer window never gives more bins, in no band and so not in all.
pub proof fn law_longer_window_plan<L: Fn(Double, Double) -> Double>(
    elapsed: &L,
    short: Double,
    long: Double,
    list: Seq<ObservationView>,
    mags: Map<Seq<char>, Seq<Double>>,
    a: Seq<BandStack>,
    b: Seq<BandStack>,
)
    requires
        list.len() <= usize::MAX,
        grows_backwards(elapsed),
        short.at_most(long),
        have_finite_times(list),
        is_plan(elapsed, short, list, mags, a),
        is_plan(elapsed, long, list, mags, b),
    ensures
        a.len() == b.len(),
        forall|g: int|
            0 <= g < a.len() ==> (#[trigger] b[g]).band@ == a[g].band@ && b[g].bins@.len()
                <= a[g].bins@.len(),
        bin_list(b).len() <= bin_list(a).len(),
{
    assert forall|g: int| 0 <= g < a.len() implies (#[trigger] b[g]).band@ == a[g].band@
        && b[g].bins@.len() <= a[g].bins@.len() by {
        let band = b[g].band@;
        assert(a[g].band@ == evaluated_bands(bands(list), mags)[g]);
        lemma_members_by_time(list, band);
        let order = by_time(list, band_members(bands(list), band));
        law_longer_window_in_band(elapsed, short, long, list, order, a[g].bins@, b[g].bins@);
    }
    lemma_fewer_bins(a, b);
}

/// How many measurements of a series are in a band.
pub open spec fn count_in_band(series: StackedSeries, band: Seq<char>) -> nat {
    bands(observations(series.observations@)).to_multiset().count(band)
}

/// The bands of bins.
pub open spec fn labels(bins: Seq<(Seq<char>, Seq<usize>)>) -> Seq<Seq<char>> {
    Seq::new(bins.len(), |k: int| bins[k].0)
}

/// Among bins of one band, all are in that band.
proof fn lemma_one_label(own: Seq<char>, bins: Seq<Vec<usize>>, band: Seq<char>)
    ensures
        labels(labelled(own, bins)).to_multiset().count(band) == if own == band {
            bins.len()
        } else {
            0
        },
    decreases bins.len(),
{
    let all = labels(labelled(own, bins));
    if bins.len() > 0 {
        let rest = labels(labelled(own, bins.drop_last()));
        lemma_one_label(own, bins.drop_last(), band);
        assert(all =~= rest.push(own));
        rest.to_multiset_ensures();
    } else {
        all.to_multiset_ensures();
        assert(all.to_multiset().len() == 0);
        assert(!all.contains(band));
    }
}

/// Stacks with no more bins band by band have no more bins in any band.
proof fn lemma_fewer_labels(a: Seq<BandStack>, b: Seq<BandStack>, band: Seq<char>)
    requires
        a.len() == b.len(),
        forall|g: int|
            0 <= g < a.len() ==> (#[trigger] b[g]).band@ == a[g].band@ && b[g].bins@.len()
                <= a[g].bins@.len(),
    ensures
        labels(bin_list(b)).to_multiset().count(band) <= labels(bin_list(a)).to_multiset().count(
            band,
        ),
    decreases a.len(),
{
    if a.len() > 0 {
        let (x, y) = (a.drop_last(), b.drop_last());
        assert forall|g: int| 0 <= g < x.len() implies (#[trigger] y[g]).band@ == x[g].band@
            && y[g].bins@.len() <= x[g].bins@.len() by {
            assert(b[g].band@ == a[g].band@ && b[g].bins@.len() <= a[g].bins@.len());
        }
        lemma_fewer_labels(x, y, band);
        let (s, t) = (a.last(), b.last());
        assert(b[b.len() - 1].band@ == a[b.len() - 1].band@);
        lemma_one_label(s.band@, s.bins@, band);
        lemma_one_label(t.band@, t.bins@, band);
        let (p, q) = (labels(labelled(s.band@, s.bins@)), labels(labelled(t.band@, t.bins@)));
        assert(labels(bin_list(a)) =~= labels(bin_list(x)) + p);
        assert(labels(bin_list(b)) =~= labels(bin_list(y)) + q);
        lemma_multiset_commutative(labels(bin_list(x)), p);
        lemma_multiset_commutative(labels(bin_list(y)), q);
    } else {
        assert(bin_list(a) =~= bin_list(b));
    }
}

/// A series has as many measurements in a band as there are bins of it.
proof fn lemma_count_in_band(
    list: Seq<ObservationView>,
    bins: Seq<(Seq<char>, Seq<usize>)>,
    mags: Map<Seq<char>, Seq<Double>>,
    summaries: Seq<BinSummary>,
    values: Seq<StackedValues>,
    series: StackedSeries,
    band: Seq<char>,
)
    requires
        are_summaries(list, mags, bins, summaries),
        summaries.len() == values.len(),
        comparable(value_times(values)),
        is_stacked(list, summaries, values, series),
    ensures
        count_in_band(series, band) == labels(bins).to_multiset().count(band),
{
    let keys = value_times(values);
    assert(series.observations.len() == values.len());
    lemma_order_exists(keys);
    let order = order_of(keys);
    let places = Seq::new(order.len(), |p: int| order[p] as int);
    assert forall|p: int, q: int| 0 <= p < q < places.len() implies places[p] != places[q] by {
        assert(precedes(keys, order[p] as int, order[q] as int));
    }
    lemma_rearranged(labels(bins), places);
    let stacked = observations(series.observations@);
    assert(bands(stacked) =~= rearranged(labels(bins), places)) by {
        assert forall|p: int| 0 <= p < stacked.len() implies bands(stacked)[p] == labels(bins)[
            order[p] as int
        ] by {
            let k = order[p] as int;
            assert(stacked[p] == stacked_observation(list, summaries, values, k));
            assert(is_summary(list, mags, bins[k], summaries[k]));
        }
    }
}

/// A longer window never gives more measurements, in no band and not in all.
pub proof fn law_longer_window<
    L: Fn(Double, Double) -> Double,
    C: Fn(&BinSummary) -> StackedValues,
>(
    elapsed: &L,
    average: &C,
    short: Double,
    long: Double,
    eval: &LightcurveEvaluation,
    raw_obs: Seq<SurveyObservation>,
    first: StackedSeries,
    second: StackedSeries,
)
    requires
        raw_obs.len() <= usize::MAX,
        grows_backwards(elapsed),
        short.at_most(long),
        have_finite_times(observations(raw_obs)),
        is_multi_outcome(elapsed, average, seq![short], eval, raw_obs, first),
        is_multi_outcome(elapsed, average, seq![long], eval, raw_obs, second),
    ensures
        second.observations@.len() <= first.observations@.len(),
        forall|band: Seq<char>| #[trigger]
            count_in_band(second, band) <= count_in_band(first, band),
{
    assert(is_stack_outcome(elapsed, average, short, eval, raw_obs, first));
    assert(is_stack_outcome(elapsed, average, long, eval, raw_obs, second));
    if raw_obs.len() >= 2 {
        let list = observations(raw_obs);
        let mags = eval.apparent_mags@;
        let (a, sums, values) = choose|
            stacks: Seq<BandStack>,
            summaries: Seq<BinSummary>,
            values: Seq<StackedValues>,
        | #[trigger]
            is_run(elapsed, average, short, list, mags, stacks, summaries, values) && comparable(
                value_times(values),
            ) && is_stacked(
                list,
                summaries,
                values,
                first,
            );
        let (b, sums2, values2) = choose|
            stacks: Seq<BandStack>,
            summaries: Seq<BinSummary>,
            values: Seq<StackedValues>,
        | #[trigger]
            is_run(elapsed, average, long, list, mags, stacks, summaries, values) && comparable(
                value_times(values),
            ) && is_stacked(
                list,
                summaries,
                values,
                second,
            );
        law_longer_window_plan(elapsed, short, long, list, mags, a, b);
        assert(observations(first.observations@).len() == bin_list(a).len());
        assert(observations(second.observations@).len() == bin_list(b).len());
        assert forall|band: Seq<char>| #[trigger] count_in_band(second, band) <= count_in_band(
            first,
            band,
        ) by {
            lemma_fewer_labels(a, b, band);
            lemma_count_in_band(list, bin_list(a), mags, sums, values, first, band);
            lemma_count_in_band(list, bin_list(b), mags, sums2, values2, second, band);
        }
    }
}

} // verus!
