//! When stacking has an answer.
use vstd::prelude::*;

use crate::bin_laws::{is_bin_exposure, is_explained, law_stack_explained};
use crate::binning::{
    band_members, bands_comparable, distinct_bands, is_plan, lemma_band_members,
    lemma_distinct_bands, member_times, BandStack,
};
use crate::double::Double;
use crate::matching::{
    are_sightings, is_evaluation, is_fetched, is_matching, law_evaluated_once, paired, Evaluated,
    Matched, Sighting,
};
use crate::measurement::{can_evaluate, is_measurement_refused, is_refused};
use crate::order::comparable;
use crate::pipeline::RunSettings;
use crate::simulation::{are_countable, is_run_refused, modelled, total_generated};
use crate::sources::PopulationInput;
use crate::stacking::{
    bin_list, depths_comparable, is_bin, is_run, is_stack_outcome, is_stack_refusal,
    lemma_plan_bins, member_depths, value_times, BinSummary, StackedSeries, StackedValues,
};
use crate::stacking_laws::{aligned, law_stack_bands, lemma_parts_aligned, measured_bands};
use crate::survey::{bands, observations, times, LightcurveEvaluation, SurveyObservation};
use crate::windows::{
    all_mags, all_observations, all_times, are_window_stacks, combinable, is_multi_refusal, row,
};

verus! {

/// Times and depths are numbers.
pub open spec fn are_numbers(raw_obs: Seq<SurveyObservation>) -> bool {
    forall|p: int|
        0 <= p < raw_obs.len() ==> !(#[trigger] raw_obs[p]).mjd.nan()
            && !raw_obs[p].five_sigma_depth.nan()
}

/// The mean time of a bin is a number.
pub open spec fn gives_numbers<C: Fn(&BinSummary) -> StackedValues>(average: &C) -> bool {
    forall|bin: BinSummary, value: StackedValues| #[trigger]
        call_ensures(*average, (&bin,), value) ==> !value.mjd.nan()
}

/// Numbers can be put in order, however many they are, and of two or more a NaN cannot.
pub proof fn law_numbers_are_comparable(keys: Seq<Double>)
    ensures
        (forall|i: int| 0 <= i < keys.len() ==> !(#[trigger] keys[i]).nan()) ==> comparable(keys),
        keys.len() >= 2 && (exists|i: int| 0 <= i < keys.len() && (#[trigger] keys[i]).nan())
            ==> !comparable(keys),
        keys.len() < 2 ==> comparable(keys),
{
}

proof fn lemma_bands_comparable(raw_obs: Seq<SurveyObservation>)
    requires
        raw_obs.len() <= usize::MAX,
        are_numbers(raw_obs),
    ensures
        bands_comparable(observations(raw_obs)),
{
    let list = observations(raw_obs);
    let names = bands(list);
    assert forall|b: Seq<char>| #[trigger] distinct_bands(names).contains(b) implies comparable(
        member_times(list, band_members(names, b)),
    ) by {
        let members = band_members(names, b);
        let keys = member_times(list, members);
        lemma_band_members(names, b);
        assert forall|i: int| 0 <= i < keys.len() implies !(#[trigger] keys[i]).nan() by {
            let p = members[i] as int;
            assert(0 <= p < raw_obs.len());
            assert(!raw_obs[p].mjd.nan());
        }
        law_numbers_are_comparable(keys);
    }
}

/// Where times, depths and mean times are numbers, stacking is never refused.
pub proof fn law_numbers_are_stacked<
    L: Fn(Double, Double) -> Double,
    C: Fn(&BinSummary) -> StackedValues,
>(
    elapsed: &L,
    average: &C,
    window: Double,
    eval: &LightcurveEvaluation,
    raw_obs: Seq<SurveyObservation>,
)
    requires
        raw_obs.len() <= usize::MAX,
        are_numbers(raw_obs),
        gives_numbers(average),
    ensures
        !is_stack_refusal(elapsed, average, window, eval, raw_obs),
{
    let list = observations(raw_obs);
    let mags = eval.apparent_mags@;
    lemma_bands_comparable(raw_obs);
    if raw_obs.len() >= 2 {
        assert forall|stacks: Seq<BandStack>| #[trigger]
            is_plan(elapsed, window, list, mags, stacks) implies depths_comparable(
            list,
            bin_list(stacks),
        ) by {
            lemma_plan_bins(elapsed, window, list, mags, stacks);
            let bins = bin_list(stacks);
            assert forall|k: int| 0 <= k < bins.len() implies comparable(
                member_depths(list, (#[trigger] bins[k]).1),
            ) by {
                assert(is_bin(list.len(), bins[k]));
                let keys = member_depths(list, bins[k].1);
                assert forall|i: int| 0 <= i < keys.len() implies !(#[trigger] keys[i]).nan() by {
                    let p = bins[k].1[i] as int;
                    assert(0 <= p < raw_obs.len());
                    assert(!raw_obs[p].five_sigma_depth.nan());
                }
                law_numbers_are_comparable(keys);
            }
        }
        assert forall|stacks: Seq<BandStack>, bins: Seq<BinSummary>, values: Seq<StackedValues>|
            #[trigger] is_run(elapsed, average, window, list, mags, stacks, bins, values) implies comparable(
            value_times(values),
        ) by {
            let keys = value_times(values);
            assert forall|k: int| 0 <= k < keys.len() implies !(#[trigger] keys[k]).nan() by {
                assert(call_ensures(*average, (&bins[k],), values[k]));
            }
            law_numbers_are_comparable(keys);
        }
    }
}

/// Where stacking has an answer, no time of a band with two or more exposures is a NaN.
pub proof fn law_stacked_times_are_numbers<
    L: Fn(Double, Double) -> Double,
    C: Fn(&BinSummary) -> StackedValues,
>(
    elapsed: &L,
    average: &C,
    window: Double,
    eval: &LightcurveEvaluation,
    raw_obs: Seq<SurveyObservation>,
    series: StackedSeries,
    p: int,
    q: int,
)
    requires
        raw_obs.len() <= usize::MAX,
        is_stack_outcome(elapsed, average, window, eval, raw_obs, series),
        0 <= p < raw_obs.len(),
        0 <= q < raw_obs.len(),
        p != q,
        raw_obs[p].band@ == raw_obs[q].band@,
    ensures
        !raw_obs[p].mjd.nan(),
{
    let list = observations(raw_obs);
    let names = bands(list);
    let band = raw_obs[p].band@;
    lemma_band_members(names, band);
    lemma_distinct_bands(names);
    let members = band_members(names, band);
    assert(names[p] == band && names[q] == band);
    assert(members.contains(p as usize) && members.contains(q as usize));
    let i = choose|i: int| 0 <= i < members.len() && members[i] == p as usize;
    let j = choose|j: int| 0 <= j < members.len() && members[j] == q as usize;
    assert(names.contains(band));
    assert(distinct_bands(names).contains(band));
    let keys = member_times(list, members);
    assert(comparable(keys));
    assert(i != j);
    assert(!keys[i].nan());
}

/// Where times, depths and mean times are numbers, stacking two or more exposures at any windows is
/// never refused.
pub proof fn law_numbers_are_stacked_at_windows<
    L: Fn(Double, Double) -> Double,
    C: Fn(&BinSummary) -> StackedValues,
>(
    elapsed: &L,
    average: &C,
    windows: Seq<Double>,
    eval: &LightcurveEvaluation,
    raw_obs: Seq<SurveyObservation>,
)
    requires
        2 <= raw_obs.len() <= usize::MAX,
        are_numbers(raw_obs),
        gives_numbers(average),
    ensures
        !is_multi_refusal(elapsed, average, windows, eval, raw_obs),
{
    assert forall|i: int| 0 <= i < windows.len() implies !is_stack_refusal(
        elapsed,
        average,
        #[trigger] windows[i],
        eval,
        raw_obs,
    ) by {
        law_numbers_are_stacked(elapsed, average, windows[i], eval, raw_obs);
    }
    assert forall|parts: Seq<StackedSeries>| #[trigger]
        are_window_stacks(elapsed, average, windows, eval, raw_obs, parts) && windows.len()
            > 1 implies combinable(parts) by {
        let names = measured_bands(observations(raw_obs), eval.apparent_mags@);
        assert forall|i: int| 0 <= i < parts.len() implies aligned(#[trigger] parts[i])
            && parts[i].evaluation.apparent_mags@.dom() == names && have_number_times(
            parts[i],
        ) by {
            assert(is_stack_outcome(elapsed, average, windows[i], eval, raw_obs, parts[i]));
            law_stack_bands(elapsed, average, windows[i], eval, raw_obs, parts[i]);
            lemma_number_times(elapsed, average, windows[i], eval, raw_obs, parts[i]);
        }
        lemma_parts_aligned(parts, names);
        lemma_all_number_times(parts);
        let keys = times(all_observations(parts));
        assert forall|i: int| 0 <= i < keys.len() implies !(#[trigger] keys[i]).nan() by {
            assert(!all_observations(parts)[i].mjd.nan());
        }
        law_numbers_are_comparable(keys);
        assert(all_times(parts).len() == all_observations(parts).len());
        assert forall|b: Seq<char>| #[trigger] all_mags(parts).contains_key(b) implies all_mags(
            parts,
        )[b].len() >= all_observations(parts).len() by {
            assert(all_mags(parts).dom().contains(b));
            assert(row(all_mags(parts), b).len() == all_observations(parts).len());
        }
    }
}

/// The times of a series are numbers.
spec fn have_number_times(series: StackedSeries) -> bool {
    forall|p: int|
        0 <= p < series.observations@.len() ==> !(#[trigger] observations(
            series.observations@,
        )[p]).mjd.nan()
}

proof fn lemma_number_times<
    L: Fn(Double, Double) -> Double,
    C: Fn(&BinSummary) -> StackedValues,
>(
    elapsed: &L,
    average: &C,
    window: Double,
    eval: &LightcurveEvaluation,
    raw_obs: Seq<SurveyObservation>,
    series: StackedSeries,
)
    requires
        2 <= raw_obs.len() <= usize::MAX,
        gives_numbers(average),
        is_stack_outcome(elapsed, average, window, eval, raw_obs, series),
    ensures
        have_number_times(series),
{
    law_stack_explained(elapsed, average, window, eval, raw_obs, series);
    let list = observations(raw_obs);
    let (bins, values) = choose|bins: Seq<BinSummary>, values: Seq<StackedValues>|
        is_explained(
            elapsed,
            average,
            window,
            list,
            eval.apparent_mags@,
            bins,
            values,
            series,
        );
    let stacked = observations(series.observations@);
    assert forall|p: int| 0 <= p < series.observations@.len() implies !(
    #[trigger] observations(series.observations@)[p]).mjd.nan() by {
        assert(is_bin_exposure(list, bins, values, stacked, series.evaluation@, p));
        let k = stacked[p].obs_id as int;
        assert(call_ensures(*average, (&bins[k],), values[k]));
    }
}

proof fn lemma_all_number_times(parts: Seq<StackedSeries>)
    requires
        forall|i: int| 0 <= i < parts.len() ==> have_number_times(#[trigger] parts[i]),
    ensures
        forall|p: int|
            0 <= p < all_observations(parts).len() ==> !(#[trigger] all_observations(
                parts,
            )[p]).mjd.nan(),
    decreases parts.len(),
{
    if parts.len() > 0 {
        let rest = parts.drop_last();
        assert forall|i: int| 0 <= i < rest.len() implies have_number_times(#[trigger] rest[i]) by {
            assert(have_number_times(parts[i]));
        }
        lemma_all_number_times(rest);
        assert(have_number_times(parts[parts.len() - 1]));
        let last = observations(parts.last().observations@);
        assert forall|p: int| 0 <= p < all_observations(parts).len() implies !(
        #[trigger] all_observations(parts)[p]).mjd.nan() by {
            let before = all_observations(rest);
            if p < before.len() {
                assert(all_observations(parts)[p] == before[p]);
            } else {
                assert(all_observations(parts)[p] == last[p - before.len()]);
            }
        }
    }
}

/// Every exposure has a time and a depth that are numbers.
pub open spec fn fetches_numbers<F: Fn(usize) -> SurveyObservation>(fetch: &F) -> bool {
    forall|i: usize, one: SurveyObservation| #[trigger]
        call_ensures(*fetch, (i,), one) ==> !one.mjd.nan() && !one.five_sigma_depth.nan()
}

/// No transient has a single exposure.
pub open spec fn none_or_several(queries: Seq<Vec<usize>>) -> bool {
    forall|i: int| 0 <= i < queries.len() ==> (#[trigger] queries[i])@.len() != 1
}

/// Where times, depths and mean times are numbers and no transient has a single exposure, a
/// population is measured, however many transients, exposures and windows there are.
pub proof fn law_numbers_are_measured<
    E: Fn(&PopulationInput, usize, &Vec<Sighting>) -> Vec<Option<LightcurveEvaluation>>,
    F: Fn(usize) -> SurveyObservation,
    L: Fn(Double, Double) -> Double,
    C: Fn(&BinSummary) -> StackedValues,
>(
    evaluate: &E,
    fetch: &F,
    elapsed: &L,
    average: &C,
    input: &PopulationInput,
    model: usize,
    queries: Seq<Vec<usize>>,
    windows_days: Option<Vec<Double>>,
)
    requires
        fetches_numbers(fetch),
        gives_numbers(average),
        none_or_several(queries),
    ensures
        !is_measurement_refused(
            evaluate,
            fetch,
            elapsed,
            average,
            input,
            model,
            queries,
            windows_days,
        ),
{
    assert forall|evaluated: Seq<Evaluated>, k: int| #[trigger]
        can_evaluate(evaluate, fetch, input, model, queries, evaluated) && 0 <= k
            < evaluated.len() implies !is_refused(
        elapsed,
        average,
        windows_days,
        &(#[trigger] evaluated[k]).eval,
        evaluated[k].observations@,
    ) by {
        let (matched, sightings, results) = choose|
            matched: Seq<Matched>,
            sightings: Vec<Sighting>,
            results: Vec<Option<LightcurveEvaluation>>,
        |
            is_matching(queries, matched) && #[trigger] are_sightings(fetch, matched, sightings@)
                && #[trigger] call_ensures(*evaluate, (input, model, &sightings), results)
                && is_evaluation(
                sightings@,
                results@,
                evaluated,
                paired(sightings@.len(), results@.len()),
            );
        law_evaluated_once(fetch, queries, matched, sightings@, results@, evaluated);
        let indices = queries[evaluated[k].instance as int]@;
        let raw_obs = evaluated[k].observations@;
        assert(is_fetched(fetch, indices, raw_obs));
        assert(raw_obs.len() >= 2);
        assert(evaluated[k].observations.len() == raw_obs.len());
        assert(are_numbers(raw_obs)) by {
            assert forall|p: int| 0 <= p < raw_obs.len() implies !(
            #[trigger] raw_obs[p]).mjd.nan() && !raw_obs[p].five_sigma_depth.nan() by {
                assert(call_ensures(*fetch, (indices[p],), raw_obs[p]));
            }
        }
        if let Some(windows) = windows_days {
            law_numbers_are_stacked_at_windows(
                elapsed,
                average,
                windows@,
                &evaluated[k].eval,
                raw_obs,
            );
        }
    }
}

/// A run without windows to stack at is never refused, and neither is one over numbers in which no
/// transient has a single exposure.
pub proof fn law_numbers_are_run<
    Q: Fn(&PopulationInput, Double) -> Vec<Vec<usize>>,
    E: Fn(&PopulationInput, usize, &Vec<Sighting>) -> Vec<Option<LightcurveEvaluation>>,
    F: Fn(usize) -> SurveyObservation,
    L: Fn(Double, Double) -> Double,
    C: Fn(&BinSummary) -> StackedValues,
>(
    query: &Q,
    evaluate: &E,
    fetch: &F,
    elapsed: &L,
    average: &C,
    names: Seq<String>,
    settings: RunSettings,
    inputs: Seq<PopulationInput>,
)
    requires
        settings.windows_days is None || (fetches_numbers(fetch) && gives_numbers(average)
            && forall|input: PopulationInput, days: Double, queries: Vec<Vec<usize>>| #[trigger]
            call_ensures(*query, (&input, days), queries) ==> none_or_several(queries@)),
    ensures
        !is_run_refused(query, evaluate, fetch, elapsed, average, names, settings, inputs),
{
    assert forall|i: int, model: usize, queries: Vec<Vec<usize>>|
        0 <= i < inputs.len() && call_ensures(
            *query,
            (&inputs[i], settings.time_window_days),
            queries,
        ) implies !(#[trigger] is_measurement_refused(
        evaluate,
        fetch,
        elapsed,
        average,
        &inputs[i],
        model,
        queries@,
        settings.windows_days,
    )) by {
        if settings.windows_days is Some {
            law_numbers_are_measured(
                evaluate,
                fetch,
                elapsed,
                average,
                &inputs[i],
                model,
                queries@,
                settings.windows_days,
            );
        }
    }
}

/// A run whose transients can be counted over all populations can be counted over those that there
/// is a model for.
pub proof fn law_countable_runs(
    names: Seq<String>,
    n_transients: usize,
    inputs: Seq<PopulationInput>,
)
    requires
        n_transients * inputs.len() <= usize::MAX,
        generated_count(inputs) <= usize::MAX,
    ensures
        are_countable(names, n_transients, inputs),
{
    lemma_modelled_less(names, inputs);
    let (m, n, t) = (modelled(names, inputs).len() as int, inputs.len() as int, n_transients as int);
    assert(t * m <= t * n) by (nonlinear_arith)
        requires
            m <= n,
            t >= 0,
    ;
}

/// How many transients populations hold.
pub open spec fn generated_count(inputs: Seq<PopulationInput>) -> int
    decreases inputs.len(),
{
    if inputs.len() == 0 {
        0
    } else {
        inputs[inputs.len() - 1].instances@.len() + generated_count(inputs.drop_last())
    }
}

proof fn lemma_modelled_less(names: Seq<String>, inputs: Seq<PopulationInput>)
    ensures
        modelled(names, inputs).len() <= inputs.len(),
        0 <= total_generated(modelled(names, inputs)) <= generated_count(inputs),
    decreases inputs.len(),
{
    reveal(Seq::filter);
    if inputs.len() > 0 {
        let rest = inputs.drop_last();
        lemma_modelled_less(names, rest);
        let before = modelled(names, rest);
        assert(before.push(inputs.last()).drop_last() =~= before);
    }
}

} // verus!
