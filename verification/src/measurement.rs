//! From the exposures found for transients to the series that the transients are judged by.
use vstd::prelude::*;

use crate::double::Double;
use crate::matching::{
    are_sightings, fetch_sightings, is_evaluation, is_matching, keep_evaluated,
    law_evaluated_once, lemma_successes, match_instances, paired, Evaluated, Matched, Sighting,
};
use crate::sources::PopulationInput;
use crate::stacking::{
    is_unstacked, unstacked, BinSummary, SeriesView, StackedSeries, StackedValues,
};
use crate::survey::{LightcurveEvaluation, SurveyObservation};
use crate::windows::{is_multi_outcome, is_multi_refusal, stack_multi_window};

verus! {

/// `series` is what the exposures of a transient can give: stacked at the given windows, or as
/// they are if there are none.
pub open spec fn is_series<
    L: Fn(Double, Double) -> Double,
    C: Fn(&BinSummary) -> StackedValues,
>(
    elapsed: &L,
    average: &C,
    windows_days: Option<Vec<Double>>,
    eval: &LightcurveEvaluation,
    raw_obs: Seq<SurveyObservation>,
    series: StackedSeries,
) -> bool {
    match windows_days {
        Some(windows) => is_multi_outcome(elapsed, average, windows@, eval, raw_obs, series),
        None => is_unstacked(eval, raw_obs, series),
    }
}

/// Stacking the exposures of a transient can have no answer.
pub open spec fn is_refused<
    L: Fn(Double, Double) -> Double,
    C: Fn(&BinSummary) -> StackedValues,
>(
    elapsed: &L,
    average: &C,
    windows_days: Option<Vec<Double>>,
    eval: &LightcurveEvaluation,
    raw_obs: Seq<SurveyObservation>,
) -> bool {
    windows_days matches Some(windows) && is_multi_refusal(
        elapsed,
        average,
        windows@,
        eval,
        raw_obs,
    )
}

/// The exposures and magnitudes that a transient is judged by: stacked at the given windows, or
/// as they are if there are none.
///
/// There is no answer when stacking has none.
pub fn measured_series<
    L: Fn(Double, Double) -> Double,
    C: Fn(&BinSummary) -> StackedValues,
>(
    eval: &LightcurveEvaluation,
    raw_obs: &Vec<SurveyObservation>,
    windows_days: &Option<Vec<Double>>,
    elapsed: &L,
    average: &C,
) -> (res: Option<StackedSeries>)
    requires
        eval.apparent_mags.wf(),
        forall|t: Double, start: Double| call_requires(*elapsed, (t, start)),
        forall|summary: BinSummary| call_requires(*average, (&summary,)),
    ensures
        match res {
            Some(series) => is_series(elapsed, average, *windows_days, eval, raw_obs@, series)
                && series.evaluation.apparent_mags.wf(),
            None => is_refused(elapsed, average, *windows_days, eval, raw_obs@),
        },
{
    match windows_days {
        Some(windows) => stack_multi_window(eval, raw_obs, windows, elapsed, average),
        None => Some(unstacked(eval, raw_obs)),
    }
}

/// A transient with the exposures and magnitudes that it is judged by.
#[derive(Debug)]
pub struct Measured {
    pub instance: usize,
    pub series: StackedSeries,
}

/// What a measured transient says.
#[verifier::ext_equal]
pub struct MeasuredView {
    pub instance: usize,
    pub series: SeriesView,
}

impl View for Measured {
    type V = MeasuredView;

    open spec fn view(&self) -> MeasuredView {
        MeasuredView { instance: self.instance, series: self.series@ }
    }
}

/// `measured` is what `evaluated` can give with its exposures stacked.
pub open spec fn is_measured<
    L: Fn(Double, Double) -> Double,
    C: Fn(&BinSummary) -> StackedValues,
>(
    elapsed: &L,
    average: &C,
    windows_days: Option<Vec<Double>>,
    evaluated: Evaluated,
    measured: Measured,
) -> bool {
    &&& measured.instance == evaluated.instance
    &&& measured.series.evaluation.apparent_mags.wf()
    &&& is_series(
        elapsed,
        average,
        windows_days,
        &evaluated.eval,
        evaluated.observations@,
        measured.series,
    )
}

/// The transients that some exposure covers, with their exposures and with lightcurves that
/// `evaluate` can give for them with model `model`.
pub open spec fn can_evaluate<
    E: Fn(&PopulationInput, usize, &Vec<Sighting>) -> Vec<Option<LightcurveEvaluation>>,
    F: Fn(usize) -> SurveyObservation,
>(
    evaluate: &E,
    fetch: &F,
    input: &PopulationInput,
    model: usize,
    queries: Seq<Vec<usize>>,
    evaluated: Seq<Evaluated>,
) -> bool {
    exists|
        matched: Seq<Matched>,
        sightings: Vec<Sighting>,
        results: Vec<Option<LightcurveEvaluation>>,
    |
        is_matching(queries, matched) && #[trigger] are_sightings(fetch, matched, sightings@)
            && #[trigger] call_ensures(*evaluate, (input, model, &sightings), results)
            && is_evaluation(
            sightings@,
            results@,
            evaluated,
            paired(sightings@.len(), results@.len()),
        )
}

/// Every lightcurve has a sound table of magnitudes.
pub open spec fn have_sound_tables(results: Seq<Option<LightcurveEvaluation>>) -> bool {
    forall|i: int|
        0 <= i < results.len() && #[trigger] results[i] is Some
            ==> results[i]->0.apparent_mags.wf()
}

/// Every measured transient is one of `count` transients, each is there once, in their order, and
/// each has a sound table of magnitudes.
pub open spec fn are_sound(count: nat, measured: Seq<Measured>) -> bool {
    &&& forall|k: int|
        0 <= k < measured.len() ==> (#[trigger] measured[k]).instance < count
            && measured[k].series.evaluation.apparent_mags.wf()
    &&& forall|k: int, l: int|
        0 <= k < l < measured.len() ==> (#[trigger] measured[k]).instance < (
        #[trigger] measured[l]).instance
}

/// `measured` is what the transients of a population can give.
pub open spec fn is_measurement<
    E: Fn(&PopulationInput, usize, &Vec<Sighting>) -> Vec<Option<LightcurveEvaluation>>,
    F: Fn(usize) -> SurveyObservation,
    L: Fn(Double, Double) -> Double,
    C: Fn(&BinSummary) -> StackedValues,
>(
    evaluate: &E,
    fetch: &F,
    elapsed: &L,
    average: &C,
    input: &PopulationInput,
    model: usize,
    queries: Seq<Vec<usize>>,
    windows_days: Option<Vec<Double>>,
    measured: Seq<Measured>,
) -> bool {
    exists|evaluated: Seq<Evaluated>| #[trigger]
        can_evaluate(evaluate, fetch, input, model, queries, evaluated) && evaluated.len()
            == measured.len() && (forall|k: int|
            0 <= k < measured.len() ==> is_measured(
                elapsed,
                average,
                windows_days,
                evaluated[k],
                #[trigger] measured[k],
            ))
}

/// Stacking can have no answer for some transient of a population.
pub open spec fn is_measurement_refused<
    E: Fn(&PopulationInput, usize, &Vec<Sighting>) -> Vec<Option<LightcurveEvaluation>>,
    F: Fn(usize) -> SurveyObservation,
    L: Fn(Double, Double) -> Double,
    C: Fn(&BinSummary) -> StackedValues,
>(
    evaluate: &E,
    fetch: &F,
    elapsed: &L,
    average: &C,
    input: &PopulationInput,
    model: usize,
    queries: Seq<Vec<usize>>,
    windows_days: Option<Vec<Double>>,
) -> bool {
    exists|evaluated: Seq<Evaluated>, k: int| #[trigger]
        can_evaluate(evaluate, fetch, input, model, queries, evaluated) && 0 <= k < evaluated.len()
            && is_refused(
            elapsed,
            average,
            windows_days,
            &(#[trigger] evaluated[k]).eval,
            evaluated[k].observations@,
        )
}

/// Takes the transients of a population from the exposures found for them to the series that they
/// are judged by.
///
/// Transients that no exposure covers are dropped. The exposures of the others are fetched, and
/// `evaluate` gives a lightcurve for each with model `model`; those without one are dropped. The
/// exposures of the rest are stacked.
///
/// There is no answer when stacking has none for some transient.
pub fn measure_population<
    E: Fn(&PopulationInput, usize, &Vec<Sighting>) -> Vec<Option<LightcurveEvaluation>>,
    F: Fn(usize) -> SurveyObservation,
    L: Fn(Double, Double) -> Double,
    C: Fn(&BinSummary) -> StackedValues,
>(
    input: &PopulationInput,
    model: usize,
    queries: &Vec<Vec<usize>>,
    windows_days: &Option<Vec<Double>>,
    evaluate: &E,
    fetch: &F,
    elapsed: &L,
    average: &C,
) -> (res: Option<Vec<Measured>>)
    requires
        forall|sightings: Vec<Sighting>| call_requires(*evaluate, (input, model, &sightings)),
        forall|sightings: Vec<Sighting>, results: Vec<Option<LightcurveEvaluation>>| #[trigger]
            call_ensures(*evaluate, (input, model, &sightings), results) ==> have_sound_tables(
                results@,
            ),
        forall|i: usize| call_requires(*fetch, (i,)),
        forall|t: Double, start: Double| call_requires(*elapsed, (t, start)),
        forall|summary: BinSummary| call_requires(*average, (&summary,)),
    ensures
        match res {
            Some(measured) => are_sound(queries@.len(), measured@) && is_measurement(
                evaluate,
                fetch,
                elapsed,
                average,
                input,
                model,
                queries@,
                *windows_days,
                measured@,
            ),
            None => is_measurement_refused(
                evaluate,
                fetch,
                elapsed,
                average,
                input,
                model,
                queries@,
                *windows_days,
            ),
        },
{
    let matched = match_instances(queries);
    let sightings = fetch_sightings(&matched, fetch);
    let results = evaluate(input, model, &sightings);
    let ghost given = results@;
    let evaluated = keep_evaluated(&sightings, results);
    proof {
        assert(are_sightings(fetch, matched@, sightings@));
        assert(can_evaluate(evaluate, fetch, input, model, queries@, evaluated@));
        law_evaluated_once(fetch, queries@, matched@, sightings@, given, evaluated@);
        lemma_successes(given, paired(sightings@.len(), given.len()));
    }
    let mut measured: Vec<Measured> = Vec::new();
    for k in 0..evaluated.len()
        invariant
            forall|t: Double, start: Double| call_requires(*elapsed, (t, start)),
            forall|summary: BinSummary| call_requires(*average, (&summary,)),
            can_evaluate(evaluate, fetch, input, model, queries@, evaluated@),
            forall|j: int|
                0 <= j < evaluated@.len() ==> (#[trigger] evaluated@[j]).eval.apparent_mags.wf(),
            measured@.len() == k,
            forall|j: int|
                0 <= j < k ==> is_measured(
                    elapsed,
                    average,
                    *windows_days,
                    evaluated@[j],
                    #[trigger] measured@[j],
                ),
    {
        let one = &evaluated[k];
        match measured_series(&one.eval, &one.observations, windows_days, elapsed, average) {
            None => {
                return None;
            },
            Some(series) => {
                measured.push(Measured { instance: one.instance, series });
            },
        }
    }
    assert(are_sound(queries@.len(), measured@)) by {
        assert forall|j: int| 0 <= j < measured@.len() implies (#[trigger] measured@[j]).instance
            == evaluated@[j].instance && measured@[j].series.evaluation.apparent_mags.wf() by {
            assert(is_measured(
                elapsed,
                average,
                *windows_days,
                evaluated@[j],
                measured@[j],
            ));
        }
    }
    Some(measured)
}

/// The transients that the measured ones are.
pub fn measured_places(measured: &Vec<Measured>) -> (res: Vec<usize>)
    ensures
        res@ == Seq::new(measured@.len(), |k: int| measured@[k].instance),
{
    let mut res: Vec<usize> = Vec::new();
    for k in 0..measured.len()
        invariant
            res@.len() == k,
            forall|j: int| 0 <= j < k ==> #[trigger] res@[j] == measured@[j].instance,
    {
        res.push(measured[k].instance);
    }
    assert(res@ =~= Seq::new(measured@.len(), |k: int| measured@[k].instance));
    res
}

} // verus!
