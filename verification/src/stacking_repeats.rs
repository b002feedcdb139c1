//! Stacking the same exposures twice, and at several windows.
use vstd::prelude::*;

use crate::binning::{band_members, by_time, evaluated_bands, is_plan, BandStack};
use crate::double::Double;
use crate::order::{comparable, lemma_order_exists, order_of, precedes};
use crate::stacking::{
    bin_list, is_run, is_stack_outcome, is_stacked, is_summary, labelled,
    stacked_observation, stacked_row, value_times, BinSummary, StackedSeries, StackedValues,
};
use crate::stacking_laws::{is_fixed_time, law_binning_unique, time_ordered};
use crate::survey::{
    bands, observations, times, LightcurveEvaluation, ObservationView, SurveyObservation,
};
use crate::windows::{
    all_mags, all_observations, all_times, are_window_stacks, combinable, is_combined,
    is_multi_outcome, renumbered,
};

verus! {

/// The averages of a bin depend on what its summary says alone.
pub open spec fn is_fixed_average<C: Fn(&BinSummary) -> StackedValues>(average: &C) -> bool {
    forall|a: BinSummary, b: BinSummary, r: StackedValues, s: StackedValues|
        a@ == b@ && #[trigger] call_ensures(*average, (&a,), r) && #[trigger] call_ensures(
            *average,
            (&b,),
            s,
        ) ==> r == s
}

/// Stacks with the same bands and the same bins have the same list of bins.
proof fn lemma_same_bin_list(a: Seq<BandStack>, b: Seq<BandStack>)
    requires
        a.len() == b.len(),
        forall|k: int|
            0 <= k < a.len() ==> labelled((#[trigger] a[k]).band@, a[k].bins@) == labelled(
                b[k].band@,
                b[k].bins@,
            ),
    ensures
        bin_list(a) == bin_list(b),
    decreases a.len(),
{
    if a.len() > 0 {
        let (x, y) = (a.drop_last(), b.drop_last());
        assert forall|k: int| 0 <= k < x.len() implies labelled(
            (#[trigger] x[k]).band@,
            x[k].bins@,
        ) == labelled(y[k].band@, y[k].bins@) by {
            assert(a[k] == x[k]);
        }
        lemma_same_bin_list(x, y);
        assert(labelled(a[a.len() - 1].band@, a[a.len() - 1].bins@) == labelled(
            b[a.len() - 1].band@,
            b[a.len() - 1].bins@,
        ));
    }
}

/// With times that depend on their ends alone, the exposures are binned in one way only.
pub proof fn law_plan_repeats<L: Fn(Double, Double) -> Double>(
    elapsed: &L,
    window: Double,
    list: Seq<ObservationView>,
    mags: Map<Seq<char>, Seq<Double>>,
    a: Seq<BandStack>,
    b: Seq<BandStack>,
)
    requires
        is_fixed_time(elapsed),
        is_plan(elapsed, window, list, mags, a),
        is_plan(elapsed, window, list, mags, b),
    ensures
        bin_list(a) == bin_list(b),
{
    assert forall|k: int| 0 <= k < a.len() implies labelled((#[trigger] a[k]).band@, a[k].bins@)
        == labelled(b[k].band@, b[k].bins@) by {
        assert(b[k].band@ == evaluated_bands(bands(list), mags)[k]);
        let order = by_time(list, band_members(bands(list), a[k].band@));
        law_binning_unique(elapsed, window, list, order, a[k].bins@, b[k].bins@);
        assert(labelled(a[k].band@, a[k].bins@) =~= labelled(b[k].band@, b[k].bins@));
    }
    lemma_same_bin_list(a, b);
}

/// With arithmetic that depends on its arguments alone, stacking the same exposures at the same
/// window gives the same series.
pub proof fn law_stack_repeats<
    L: Fn(Double, Double) -> Double,
    C: Fn(&BinSummary) -> StackedValues,
>(
    elapsed: &L,
    average: &C,
    window: Double,
    evals: (&LightcurveEvaluation, &LightcurveEvaluation),
    obs: (Seq<SurveyObservation>, Seq<SurveyObservation>),
    first: StackedSeries,
    second: StackedSeries,
)
    requires
        is_fixed_time(elapsed),
        is_fixed_average(average),
        evals.0@ == evals.1@,
        observations(obs.0) == observations(obs.1),
        is_stack_outcome(elapsed, average, window, evals.0, obs.0, first),
        is_stack_outcome(elapsed, average, window, evals.1, obs.1, second),
    ensures
        first@ == second@,
{
    let list = observations(obs.0);
    let mags = evals.0.apparent_mags@;
    assert(mags == evals.0@.mags && evals.1.apparent_mags@ == evals.1@.mags);
    assert(list.len() == obs.0.len() && observations(obs.1).len() == obs.1.len());
    if obs.0.len() < 2 {
        assert(evals.0.times_mjd@ == evals.0@.times && evals.1.times_mjd@ == evals.1@.times);
        assert(first@ =~= second@);
    } else {
        let (stacks, sums, values) = choose|
            stacks: Seq<BandStack>,
            summaries: Seq<BinSummary>,
            values: Seq<StackedValues>,
        | #[trigger]
            is_run(elapsed, average, window, list, mags, stacks, summaries, values)
                && comparable(value_times(values)) && is_stacked(list, summaries, values, first);
        let (stacks2, sums2, values2) = choose|
            stacks: Seq<BandStack>,
            summaries: Seq<BinSummary>,
            values: Seq<StackedValues>,
        | #[trigger]
            is_run(elapsed, average, window, list, mags, stacks, summaries, values)
                && is_stacked(list, summaries, values, second);
        law_plan_repeats(elapsed, window, list, mags, stacks, stacks2);
        let bins = bin_list(stacks);
        assert forall|k: int| 0 <= k < bins.len() implies (#[trigger] sums[k])@ == sums2[k]@ by {
            assert(is_summary(list, mags, bins[k], sums[k]));
            assert(is_summary(list, mags, bins[k], sums2[k]));
        }
        assert forall|k: int| 0 <= k < bins.len() implies values[k] == values2[k] by {
            assert(sums[k]@ == sums2[k]@);
            assert(call_ensures(*average, (&sums[k],), values[k]));
            assert(call_ensures(*average, (&sums2[k],), values2[k]));
        }
        assert(values =~= values2);
        lemma_stacked_repeats(list, sums, sums2, values, first, second);
    }
}

/// Bins with the same summaries and averages are assembled to the same series.
proof fn lemma_stacked_repeats(
    list: Seq<ObservationView>,
    a: Seq<BinSummary>,
    b: Seq<BinSummary>,
    values: Seq<StackedValues>,
    first: StackedSeries,
    second: StackedSeries,
)
    requires
        a.len() == b.len() == values.len(),
        forall|k: int| 0 <= k < a.len() ==> (#[trigger] a[k])@ == b[k]@,
        comparable(value_times(values)),
        is_stacked(list, a, values, first),
        is_stacked(list, b, values, second),
    ensures
        first@ == second@,
{
    let keys = value_times(values);
    assert(first.observations.len() == values.len());
    lemma_order_exists(keys);
    let order = order_of(keys);
    let (x, y) = (observations(first.observations@), observations(second.observations@));
    assert forall|p: int| 0 <= p < x.len() implies x[p] == y[p] by {
        let k = order[p] as int;
        assert(a[k]@ == b[k]@);
        assert(a[k].members@ == a[k]@.members && b[k].members@ == b[k]@.members);
        assert(a[k].band@ == a[k]@.band && b[k].band@ == b[k]@.band);
        assert(x[p] == stacked_observation(list, a, values, k));
        assert(y[p] == stacked_observation(list, b, values, k));
    }
    assert(x =~= y);
    let (s, t) = (first.evaluation.apparent_mags@, second.evaluation.apparent_mags@);
    assert forall|band: Seq<char>| s.contains_key(band) <==> t.contains_key(band) by {
        if s.contains_key(band) {
            let k = choose|k: int| 0 <= k < a.len() && (#[trigger] a[k]).band@ == band;
            assert(a[k]@ == b[k]@);
            assert(b[k].band@ == b[k]@.band);
        }
        if t.contains_key(band) {
            let k = choose|k: int| 0 <= k < b.len() && (#[trigger] b[k]).band@ == band;
            assert(a[k]@ == b[k]@);
            assert(a[k].band@ == a[k]@.band);
        }
    }
    assert forall|band: Seq<char>| s.contains_key(band) implies s[band] == t[band] by {
        let (r, q) = (stacked_row(a, values, band), stacked_row(b, values, band));
        assert forall|p: int| 0 <= p < r.len() implies r[p] == q[p] by {
            let k = order[p] as int;
            assert(a[k]@ == b[k]@);
            assert(a[k].band@ == a[k]@.band && b[k].band@ == b[k]@.band);
            assert(a[k].usable_mags@ == a[k]@.usable_mags);
            assert(b[k].usable_mags@ == b[k]@.usable_mags);
        }
        assert(r =~= q);
        assert(t.contains_key(band));
    }
    assert(s =~= t);
    assert(first@ =~= second@);
}

/// Series say the same, one by one.
pub open spec fn say_the_same(a: Seq<StackedSeries>, b: Seq<StackedSeries>) -> bool {
    a.len() == b.len() && forall|i: int| 0 <= i < a.len() ==> (#[trigger] a[i])@ == b[i]@
}

proof fn lemma_same_parts(a: Seq<StackedSeries>, b: Seq<StackedSeries>)
    requires
        say_the_same(a, b),
    ensures
        all_observations(a) == all_observations(b),
        all_times(a) == all_times(b),
        all_mags(a) == all_mags(b),
    decreases a.len(),
{
    if a.len() > 0 {
        let (x, y) = (a.drop_last(), b.drop_last());
        assert forall|i: int| 0 <= i < x.len() implies (#[trigger] x[i])@ == y[i]@ by {
            assert(a[i]@ == b[i]@);
        }
        lemma_same_parts(x, y);
        let (s, t) = (a.last(), b.last());
        assert(a[a.len() - 1]@ == b[a.len() - 1]@);
        assert(s@.observations == observations(s.observations@));
        assert(t@.observations == observations(t.observations@));
        assert(s@.evaluation.times == s.evaluation.times_mjd@);
        assert(t@.evaluation.times == t.evaluation.times_mjd@);
        assert(s@.evaluation.mags == s.evaluation.apparent_mags@);
        assert(t@.evaluation.mags == t.evaluation.apparent_mags@);
    }
}

/// Parts that say the same are combined to the same series.
proof fn lemma_combined_repeats(
    a: Seq<StackedSeries>,
    b: Seq<StackedSeries>,
    first: StackedSeries,
    second: StackedSeries,
)
    requires
        say_the_same(a, b),
        is_combined(a, first),
        is_combined(b, second),
    ensures
        first@ == second@,
{
    lemma_same_parts(a, b);
    let (x, y) = (observations(first.observations@), observations(second.observations@));
    assert(x =~= y);
    let (s, t) = (first.evaluation.apparent_mags@, second.evaluation.apparent_mags@);
    assert(s.dom() == t.dom());
    assert forall|band: Seq<char>| s.contains_key(band) implies s[band] == t[band] by {
        assert(t.dom().contains(band));
    }
    assert(s =~= t);
    assert(first@ =~= second@);
}

/// With arithmetic that depends on its arguments alone, stacks at the same windows say the same.
proof fn lemma_window_stacks_repeat<
    L: Fn(Double, Double) -> Double,
    C: Fn(&BinSummary) -> StackedValues,
>(
    elapsed: &L,
    average: &C,
    windows: Seq<Double>,
    evals: (&LightcurveEvaluation, &LightcurveEvaluation),
    obs: (Seq<SurveyObservation>, Seq<SurveyObservation>),
    a: Seq<StackedSeries>,
    b: Seq<StackedSeries>,
)
    requires
        is_fixed_time(elapsed),
        is_fixed_average(average),
        evals.0@ == evals.1@,
        observations(obs.0) == observations(obs.1),
        are_window_stacks(elapsed, average, windows, evals.0, obs.0, a),
        are_window_stacks(elapsed, average, windows, evals.1, obs.1, b),
    ensures
        say_the_same(a, b),
{
    assert forall|i: int| 0 <= i < a.len() implies (#[trigger] a[i])@ == b[i]@ by {
        law_stack_repeats(elapsed, average, windows[i], evals, obs, a[i], b[i]);
    }
}

/// With arithmetic that depends on its arguments alone, stacking the same exposures at the same
/// windows gives the same series.
pub proof fn law_multi_window_repeats<
    L: Fn(Double, Double) -> Double,
    C: Fn(&BinSummary) -> StackedValues,
>(
    elapsed: &L,
    average: &C,
    windows: Seq<Double>,
    evals: (&LightcurveEvaluation, &LightcurveEvaluation),
    obs: (Seq<SurveyObservation>, Seq<SurveyObservation>),
    first: StackedSeries,
    second: StackedSeries,
)
    requires
        is_fixed_time(elapsed),
        is_fixed_average(average),
        evals.0@ == evals.1@,
        observations(obs.0) == observations(obs.1),
        is_multi_outcome(elapsed, average, windows, evals.0, obs.0, first),
        is_multi_outcome(elapsed, average, windows, evals.1, obs.1, second),
    ensures
        first@ == second@,
{
    if windows.len() == 0 {
        assert(evals.0.apparent_mags@ == evals.0@.mags && evals.1.apparent_mags@ == evals.1@.mags);
        assert(evals.0.times_mjd@ == evals.0@.times && evals.1.times_mjd@ == evals.1@.times);
        assert(first@ =~= second@);
    } else if windows.len() == 1 {
        law_stack_repeats(elapsed, average, windows[0], evals, obs, first, second);
    } else {
        let a = choose|parts: Seq<StackedSeries>| #[trigger]
            are_window_stacks(elapsed, average, windows, evals.0, obs.0, parts) && is_combined(
                parts,
                first,
            );
        let b = choose|parts: Seq<StackedSeries>| #[trigger]
            are_window_stacks(elapsed, average, windows, evals.1, obs.1, parts) && is_combined(
                parts,
                second,
            );
        lemma_window_stacks_repeat(elapsed, average, windows, evals, obs, a, b);
        lemma_combined_repeats(a, b, first, second);
    }
}

/// One window gives what stacking at that window gives.
pub proof fn law_one_window<
    L: Fn(Double, Double) -> Double,
    C: Fn(&BinSummary) -> StackedValues,
>(
    elapsed: &L,
    average: &C,
    window: Double,
    eval: &LightcurveEvaluation,
    raw_obs: Seq<SurveyObservation>,
    multi: StackedSeries,
    single: StackedSeries,
)
    requires
        is_fixed_time(elapsed),
        is_fixed_average(average),
        is_multi_outcome(elapsed, average, seq![window], eval, raw_obs, multi),
        is_stack_outcome(elapsed, average, window, eval, raw_obs, single),
    ensures
        multi@ == single@,
{
    law_stack_repeats(elapsed, average, window, (eval, eval), (raw_obs, raw_obs), multi, single);
}

/// Exposures without their numbers.
pub open spec fn unnumbered(list: Seq<ObservationView>) -> Seq<ObservationView> {
    Seq::new(list.len(), |i: int| renumbered(list[i], 0))
}

/// The items at the given places.
pub open spec fn rearranged<A>(list: Seq<A>, order: Seq<int>) -> Seq<A> {
    Seq::new(order.len(), |p: int| list[order[p]])
}

/// A list in another order holds the same items as often.
pub proof fn lemma_rearranged<A>(list: Seq<A>, order: Seq<int>)
    requires
        order.len() == list.len(),
        forall|p: int| 0 <= p < order.len() ==> 0 <= #[trigger] order[p] < list.len(),
        order.no_duplicates(),
    ensures
        rearranged(list, order).to_multiset() == list.to_multiset(),
    decreases list.len(),
{
    let all = rearranged(list, order);
    if list.len() == 0 {
        assert(all =~= list);
    } else {
        let k = order.last();
        let rest = list.remove(k);
        let places = Seq::new(
            (order.len() - 1) as nat,
            |p: int|
                if order[p] < k {
                    order[p]
                } else {
                    order[p] - 1
                },
        );
        assert forall|p: int| 0 <= p < places.len() implies 0 <= #[trigger] places[p]
            < rest.len() by {
            assert(order[p] != order[order.len() - 1]);
        }
        assert forall|p: int, q: int|
            0 <= p < places.len() && 0 <= q < places.len() && p != q implies places[p]
            != places[q] by {
            assert(order[p] != order[q]);
            assert(order[p] != order[order.len() - 1]);
            assert(order[q] != order[order.len() - 1]);
        }
        lemma_rearranged(rest, places);
        assert(all.drop_last() =~= rearranged(rest, places)) by {
            assert forall|p: int| 0 <= p < places.len() implies all[p] == rest[places[p]] by {
                assert(order[p] != order[order.len() - 1]);
            }
        }
        assert(all =~= all.drop_last().push(list[k]));
        all.drop_last().to_multiset_ensures();
        list.to_multiset_ensures();
        assert(list.to_multiset().remove(list[k]).insert(list[k]) =~= list.to_multiset()) by {
            assert(list.contains(list[k]));
        }
    }
}

/// Several windows give all the stacks that stacking at each of them gives, none dropped and none
/// taken twice, in order of time and numbered by place.
pub proof fn law_windows_give_all_stacks<
    L: Fn(Double, Double) -> Double,
    C: Fn(&BinSummary) -> StackedValues,
>(
    elapsed: &L,
    average: &C,
    windows: Seq<Double>,
    eval: &LightcurveEvaluation,
    raw_obs: Seq<SurveyObservation>,
    series: StackedSeries,
    stacks: Seq<StackedSeries>,
)
    requires
        is_fixed_time(elapsed),
        is_fixed_average(average),
        windows.len() >= 2,
        is_multi_outcome(elapsed, average, windows, eval, raw_obs, series),
        are_window_stacks(elapsed, average, windows, eval, raw_obs, stacks),
    ensures
        is_combined(stacks, series),
        unnumbered(observations(series.observations@)).to_multiset() == unnumbered(
            all_observations(stacks),
        ).to_multiset(),
        time_ordered(observations(series.observations@)),
        forall|p: int|
            0 <= p < series.observations@.len() ==> (#[trigger] series.observations@[p]).obs_id == p,
{
    let parts = choose|parts: Seq<StackedSeries>| #[trigger]
        are_window_stacks(elapsed, average, windows, eval, raw_obs, parts) && combinable(parts)
            && is_combined(parts, series);
    lemma_window_stacks_repeat(
        elapsed,
        average,
        windows,
        (eval, eval),
        (raw_obs, raw_obs),
        parts,
        stacks,
    );
    lemma_same_parts(parts, stacks);
    let all = all_observations(stacks);
    let keys = times(all);
    let result = observations(series.observations@);
    assert(series.observations.len() == all.len());
    lemma_order_exists(keys);
    let order = order_of(keys);
    let places = Seq::new(order.len(), |p: int| order[p] as int);
    assert forall|p: int, q: int| 0 <= p < q < places.len() implies places[p] != places[q] by {
        assert(precedes(keys, order[p] as int, order[q] as int));
    }
    lemma_rearranged(unnumbered(all), places);
    assert(unnumbered(result) =~= rearranged(unnumbered(all), places)) by {
        assert forall|p: int| 0 <= p < result.len() implies unnumbered(result)[p] == rearranged(
            unnumbered(all),
            places,
        )[p] by {
            assert(result[p] == renumbered(all[order[p] as int], p));
        }
    }
    assert forall|p: int, q: int| 0 <= p < q < result.len() implies !(
    #[trigger] result[q]).mjd.below((#[trigger] result[p]).mjd) by {
        assert(precedes(keys, order[p] as int, order[q] as int));
        assert(keys[order[p] as int] == result[p].mjd);
        assert(keys[order[q] as int] == result[q].mjd);
    }
    assert forall|p: int| 0 <= p < series.observations@.len() implies (
    #[trigger] series.observations@[p]).obs_id == p by {
        assert(result[p].obs_id == p as u64);
    }
}

} // verus!
