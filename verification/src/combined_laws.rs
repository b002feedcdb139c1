//! What becomes of the stacks of several windows when they are taken together.
use vstd::prelude::*;

use crate::double::Double;
use crate::measurement::is_series;
use crate::order::{lemma_order_covers, lemma_order_exists, order_of};
use crate::stacking::{is_stack_outcome, BinSummary, StackedSeries, StackedValues};
use crate::stacking_laws::{
    all_aligned, aligned, law_multi_window_aligned, law_stack_bands, measured_bands, same_bands,
    time_ordered,
};
use crate::survey::{observations, times, LightcurveEvaluation, SurveyObservation};
use crate::windows::{
    all_mags, all_observations, all_times, are_window_stacks, combinable, is_combined,
    is_multi_outcome, row,
};

verus! {

/// Nothing was stacked: exposures, magnitudes and times are those that were given.
pub open spec fn is_as_given(
    eval: &LightcurveEvaluation,
    raw_obs: Seq<SurveyObservation>,
    series: StackedSeries,
) -> bool {
    &&& series.observations@ == raw_obs
    &&& series.evaluation.apparent_mags@ == eval.apparent_mags@
    &&& series.evaluation.times_mjd@ == eval.times_mjd@
}

/// Without windows nothing is stacked, and neither is a single exposure at a single window.
pub proof fn law_nothing_to_stack<
    L: Fn(Double, Double) -> Double,
    C: Fn(&BinSummary) -> StackedValues,
>(
    elapsed: &L,
    average: &C,
    windows: Option<Vec<Double>>,
    eval: &LightcurveEvaluation,
    raw_obs: Seq<SurveyObservation>,
    series: StackedSeries,
)
    requires
        is_series(elapsed, average, windows, eval, raw_obs, series),
        windows is None || (windows->0)@.len() == 0 || ((windows->0)@.len() == 1 && raw_obs.len()
            < 2),
    ensures
        is_as_given(eval, raw_obs, series),
{
}

/// With windows, the exposures are stacked at all of them.
pub proof fn law_stacked_at_all_windows<
    L: Fn(Double, Double) -> Double,
    C: Fn(&BinSummary) -> StackedValues,
>(
    elapsed: &L,
    average: &C,
    windows: Vec<Double>,
    eval: &LightcurveEvaluation,
    raw_obs: Seq<SurveyObservation>,
    series: StackedSeries,
)
    ensures
        is_series(elapsed, average, Some(windows), eval, raw_obs, series) <==> is_multi_outcome(
            elapsed,
            average,
            windows@,
            eval,
            raw_obs,
            series,
        ),
{
}

/// A single window gives its own stack.
pub proof fn law_single_window<
    L: Fn(Double, Double) -> Double,
    C: Fn(&BinSummary) -> StackedValues,
>(
    elapsed: &L,
    average: &C,
    windows: Option<Vec<Double>>,
    eval: &LightcurveEvaluation,
    raw_obs: Seq<SurveyObservation>,
    series: StackedSeries,
)
    requires
        windows is Some,
        (windows->0)@.len() == 1,
    ensures
        is_series(elapsed, average, windows, eval, raw_obs, series) <==> is_stack_outcome(
            elapsed,
            average,
            (windows->0)@[0],
            eval,
            raw_obs,
            series,
        ),
{
}

/// Where the exposures of part `j` start when the parts are put one after the other.
spec fn start(parts: Seq<StackedSeries>, j: int) -> int {
    all_observations(parts.take(j)).len() as int
}

proof fn lemma_parts_in_turn(parts: Seq<StackedSeries>, names: Set<Seq<char>>, j: int, i: int)
    requires
        all_aligned(parts),
        same_bands(parts, names),
        0 <= j < parts.len(),
        0 <= i < parts[j].observations@.len(),
    ensures
        0 <= start(parts, j) + i < all_observations(parts).len(),
        all_observations(parts)[start(parts, j) + i] == parts[j].observations@[i]@,
        all_times(parts).len() == all_observations(parts).len(),
        all_times(parts)[start(parts, j) + i] == parts[j].evaluation.times_mjd@[i],
        forall|b: Seq<char>|
            names.contains(b) ==> (#[trigger] row(all_mags(parts), b)).len() == all_observations(
                parts,
            ).len() && row(all_mags(parts), b)[start(parts, j) + i]
                == parts[j].evaluation.apparent_mags@[b][i],
    decreases parts.len(),
{
    let rest = parts.drop_last();
    let last = parts.last();
    assert(aligned(parts[parts.len() - 1]));
    assert(parts[parts.len() - 1].evaluation.apparent_mags@.dom() == names);
    assert(aligned(parts[j]));
    assert forall|k: int| 0 <= k < rest.len() implies aligned(#[trigger] rest[k])
        && rest[k].evaluation.apparent_mags@.dom() == names by {
        assert(aligned(parts[k]));
        assert(parts[k].evaluation.apparent_mags@.dom() == names);
    }
    lemma_lengths(rest, names);
    assert(observations(last.observations@).len() == last.observations@.len());
    assert forall|b: Seq<char>| names.contains(b) implies #[trigger] row(all_mags(parts), b)
        == row(all_mags(rest), b) + last.evaluation.apparent_mags@[b] by {
        assert(last.evaluation.apparent_mags@.contains_key(b));
    }
    if j < rest.len() {
        lemma_parts_in_turn(rest, names, j, i);
        assert(rest.take(j) =~= parts.take(j));
        assert forall|b: Seq<char>| names.contains(b) implies (#[trigger] row(
            all_mags(parts),
            b,
        )).len() == all_observations(parts).len() && row(all_mags(parts), b)[start(parts, j) + i]
            == parts[j].evaluation.apparent_mags@[b][i] by {
            assert(last.evaluation.apparent_mags@.contains_key(b));
            assert(row(all_mags(rest), b)[start(rest, j) + i]
                == rest[j].evaluation.apparent_mags@[b][i]);
        }
    } else {
        assert(rest =~= parts.take(j));
        assert forall|b: Seq<char>| names.contains(b) implies (#[trigger] row(
            all_mags(parts),
            b,
        )).len() == all_observations(parts).len() && row(all_mags(parts), b)[start(parts, j) + i]
            == parts[j].evaluation.apparent_mags@[b][i] by {
            assert(last.evaluation.apparent_mags@.contains_key(b));
            assert(row(all_mags(rest), b).len() == all_observations(rest).len());
        }
    }
}

proof fn lemma_lengths(parts: Seq<StackedSeries>, names: Set<Seq<char>>)
    requires
        all_aligned(parts),
        same_bands(parts, names),
    ensures
        all_times(parts).len() == all_observations(parts).len(),
        forall|b: Seq<char>|
            names.contains(b) ==> (#[trigger] row(all_mags(parts), b)).len() == all_observations(
                parts,
            ).len(),
    decreases parts.len(),
{
    if parts.len() > 0 {
        let rest = parts.drop_last();
        let last = parts.last();
        assert(aligned(parts[parts.len() - 1]));
        assert(parts[parts.len() - 1].evaluation.apparent_mags@.dom() == names);
        assert forall|k: int| 0 <= k < rest.len() implies aligned(#[trigger] rest[k])
            && rest[k].evaluation.apparent_mags@.dom() == names by {
            assert(aligned(parts[k]));
            assert(parts[k].evaluation.apparent_mags@.dom() == names);
        }
        lemma_lengths(rest, names);
        assert forall|b: Seq<char>| names.contains(b) implies (#[trigger] row(
            all_mags(parts),
            b,
        )).len() == all_observations(parts).len() by {
            assert(last.evaluation.apparent_mags@.contains_key(b));
            assert(row(all_mags(parts), b) == row(all_mags(rest), b)
                + last.evaluation.apparent_mags@[b]);
            assert(row(all_mags(rest), b).len() == all_observations(rest).len());
        }
    }
}

/// The exposure at place `p` of a series is exposure `i` of a part under the number of its place,
/// with the same time and the same magnitude in every band.
pub open spec fn is_carried_to(
    part: StackedSeries,
    i: int,
    series: StackedSeries,
    p: int,
) -> bool {
    let (from, to) = (part.observations@[i]@, series.observations@[p]@);
    &&& 0 <= p < series.observations@.len()
    &&& to.obs_id == p
    &&& to.ra == from.ra
    &&& to.dec == from.dec
    &&& to.mjd == from.mjd
    &&& to.band == from.band
    &&& to.five_sigma_depth == from.five_sigma_depth
    &&& to.seeing_fwhm == from.seeing_fwhm
    &&& to.exposure_time == from.exposure_time
    &&& to.airmass == from.airmass
    &&& to.sky_brightness == from.sky_brightness
    &&& to.night == from.night
    &&& series.evaluation.times_mjd@[p] == part.evaluation.times_mjd@[i]
    &&& forall|b: Seq<char>| #[trigger]
        part.evaluation.apparent_mags@.contains_key(b) ==> {
            &&& series.evaluation.apparent_mags@.contains_key(b)
            &&& series.evaluation.apparent_mags@[b][p] == part.evaluation.apparent_mags@[b][i]
        }
}

/// Exposure `i` of a part is somewhere in the series.
pub open spec fn is_carried(part: StackedSeries, i: int, series: StackedSeries) -> bool {
    exists|p: int| is_carried_to(part, i, series, p)
}

/// How many exposures several series have.
pub open spec fn exposure_count(parts: Seq<StackedSeries>) -> int
    decreases parts.len(),
{
    if parts.len() == 0 {
        0
    } else {
        exposure_count(parts.drop_last()) + parts.last().observations@.len()
    }
}

proof fn lemma_exposure_count(parts: Seq<StackedSeries>)
    ensures
        exposure_count(parts) == all_observations(parts).len(),
    decreases parts.len(),
{
    if parts.len() > 0 {
        lemma_exposure_count(parts.drop_last());
    }
}

/// Taking stacks together carries every exposure of every part over, with its time and its
/// magnitudes, and adds none.
pub proof fn law_combined_carries_magnitudes(
    parts: Seq<StackedSeries>,
    names: Set<Seq<char>>,
    series: StackedSeries,
)
    requires
        all_aligned(parts),
        same_bands(parts, names),
        all_observations(parts).len() <= usize::MAX,
        combinable(parts),
        is_combined(parts, series),
    ensures
        series.observations@.len() == exposure_count(parts),
        forall|j: int, i: int|
            0 <= j < parts.len() && 0 <= i < parts[j].observations@.len() ==> #[trigger] is_carried(
                parts[j],
                i,
                series,
            ),
{
    lemma_exposure_count(parts);
    let all = all_observations(parts);
    let keys = times(all);
    lemma_order_exists(keys);
    let order = order_of(keys);
    let result = observations(series.observations@);
    assert(result.len() == series.observations@.len());
    assert forall|j: int, i: int|
        0 <= j < parts.len() && 0 <= i < parts[j].observations@.len() implies #[trigger] is_carried(
        parts[j],
        i,
        series,
    ) by {
        lemma_parts_in_turn(parts, names, j, i);
        let k = start(parts, j) + i;
        lemma_order_covers(keys, order, k);
        let p = choose|p: int| 0 <= p < order.len() && #[trigger] order[p] == k;
        assert(result[p] == series.observations@[p]@);
        assert(series.evaluation.times_mjd@[p] == all_times(parts)[k]);
        assert(parts[j].evaluation.apparent_mags@.dom() == names);
        assert forall|b: Seq<char>| #[trigger]
            parts[j].evaluation.apparent_mags@.contains_key(b) implies {
            &&& series.evaluation.apparent_mags@.contains_key(b)
            &&& series.evaluation.apparent_mags@[b][p] == parts[j].evaluation.apparent_mags@[b][i]
        } by {
            assert(names.contains(b));
            assert(row(all_mags(parts), b).len() == all.len());
            assert(all_mags(parts).contains_key(b));
            assert(all_mags(parts).dom().contains(b));
            assert(series.evaluation.apparent_mags@.dom().contains(b));
        }
        assert(is_carried_to(parts[j], i, series, p));
    }
}

/// Stacking two or more exposures at two or more windows gives the stack of every window, each at
/// its own, with all exposures, times and magnitudes, and nothing else, in order of time.
pub proof fn law_windows_explained<
    L: Fn(Double, Double) -> Double,
    C: Fn(&BinSummary) -> StackedValues,
>(
    elapsed: &L,
    average: &C,
    windows: Seq<Double>,
    eval: &LightcurveEvaluation,
    raw_obs: Seq<SurveyObservation>,
    series: StackedSeries,
)
    requires
        2 <= raw_obs.len() <= usize::MAX,
        windows.len() >= 2,
        is_multi_outcome(elapsed, average, windows, eval, raw_obs, series),
    ensures
        time_ordered(observations(series.observations@)),
        exists|parts: Seq<StackedSeries>|
            are_stacks_at(elapsed, average, windows, eval, raw_obs, parts) && are_taken_together(
                parts,
                series,
            ),
{
    law_multi_window_aligned(elapsed, average, windows, eval, raw_obs, series);
    let names = measured_bands(observations(raw_obs), eval.apparent_mags@);
    let parts = choose|parts: Seq<StackedSeries>| #[trigger]
        are_window_stacks(elapsed, average, windows, eval, raw_obs, parts) && combinable(parts)
            && is_combined(parts, series);
    assert forall|i: int| 0 <= i < parts.len() implies aligned(#[trigger] parts[i])
        && parts[i].evaluation.apparent_mags@.dom() == names by {
        law_stack_bands(elapsed, average, windows[i], eval, raw_obs, parts[i]);
    }
    assert(series.observations.len() == all_observations(parts).len());
    law_combined_carries_magnitudes(parts, names, series);
    assert(are_stacks_at(elapsed, average, windows, eval, raw_obs, parts));
    assert(are_taken_together(parts, series));
}

/// There is one stack for each window, at that window.
pub open spec fn are_stacks_at<
    L: Fn(Double, Double) -> Double,
    C: Fn(&BinSummary) -> StackedValues,
>(
    elapsed: &L,
    average: &C,
    windows: Seq<Double>,
    eval: &LightcurveEvaluation,
    raw_obs: Seq<SurveyObservation>,
    parts: Seq<StackedSeries>,
) -> bool {
    &&& parts.len() == windows.len()
    &&& forall|i: int|
        0 <= i < parts.len() ==> is_stack_outcome(
            elapsed,
            average,
            windows[i],
            eval,
            raw_obs,
            #[trigger] parts[i],
        )
}

/// Every exposure of every part is in the series, and no other.
pub open spec fn are_taken_together(parts: Seq<StackedSeries>, series: StackedSeries) -> bool {
    &&& series.observations@.len() == exposure_count(parts)
    &&& forall|j: int, i: int|
        0 <= j < parts.len() && 0 <= i < parts[j].observations@.len() ==> #[trigger] is_carried(
            parts[j],
            i,
            series,
        )
}

} // verus!
