//! Laws of simulation runs.
use vstd::prelude::*;

use crate::dispatch::{lacks_model, PipelineError};
use crate::double::Double;
use crate::matching::{Sighting, Verdict};
use crate::measurement::Measured;
use crate::pipeline::{
    is_entered, is_recorded, total_detected, total_simulated, PipelineResult, PopulationRun,
    Rates, RunSettings, TypeExtras,
};
use crate::results::{
    are_copies, extras_at, is_shown, is_shown_result, is_source_at, is_upper_limit, PyRateSummary, PyRateUpperLimit,
    PySimulationResult,
};
use crate::simulation::{is_outcome, is_step, is_trace};
use crate::sources::{source_views, PopulationInput, PyDetectedSource};
use crate::stacking::{BinSummary, StackedValues};
use crate::survey::{LightcurveEvaluation, SurveyObservation};

verus! {

/// Which of the first `n` populations have a model, ascending.
pub open spec fn modelled(names: Seq<String>, inputs: Seq<PopulationInput>, n: int) -> Seq<int>
    decreases n,
{
    if n <= 0 {
        Seq::empty()
    } else if lacks_model(names, inputs[n - 1].transient_type@) {
        modelled(names, inputs, n - 1)
    } else {
        modelled(names, inputs, n - 1).push(n - 1)
    }
}

/// A result has one summary for each of the given populations, in their order.
pub open spec fn summarizes(
    n_transients: usize,
    inputs: Seq<PopulationInput>,
    populations: Seq<int>,
    result: PipelineResult,
) -> bool {
    &&& result.rate_summaries@.len() == populations.len()
    &&& result.per_type_extras@.len() == populations.len()
    &&& result.n_simulated == n_transients * populations.len()
    &&& forall|k: int|
        0 <= k < populations.len() ==> {
            &&& (#[trigger] result.rate_summaries@[k]).transient_type@
                == inputs[populations[k]].transient_type@
            &&& result.rate_summaries@[k].volumetric_rate == inputs[populations[k]].volumetric_rate
            &&& result.per_type_extras@[k].n_simulated == n_transients
        }
}

proof fn lemma_summaries<
    Q: Fn(&PopulationInput, Double) -> Vec<Vec<usize>>,
    E: Fn(&PopulationInput, usize, &Vec<Sighting>) -> Vec<Option<LightcurveEvaluation>>,
    F: Fn(usize) -> SurveyObservation,
    L: Fn(Double, Double) -> Double,
    C: Fn(&BinSummary) -> StackedValues,
    D: Fn(&PopulationInput, &Vec<Measured>) -> Vec<Verdict>,
    R: Fn(&PopulationInput, usize, &Vec<bool>, usize, Double) -> Rates,
    K: Fn(Double, Double) -> (u64, u64),
    M: Fn(Double, Double) -> (Double, Double),
    P: Fn(Double, Double, u64, u64) -> Double,
>(
    query: &Q,
    evaluate: &E,
    fetch: &F,
    elapsed: &L,
    average: &C,
    detect: &D,
    integrate: &R,
    seeds: &K,
    measure: &M,
    perturb: &P,
    names: Seq<String>,
    settings: RunSettings,
    inputs: Seq<PopulationInput>,
    states: Seq<PipelineResult>,
    m: int,
)
    requires
        is_trace(
            query,
            evaluate,
            fetch,
            elapsed,
            average,
            detect,
            integrate,
            seeds,
            measure,
            perturb,
            names,
            settings,
            inputs,
            states,
        ),
        0 <= m < states.len(),
    ensures
        summarizes(settings.n_transients, inputs, modelled(names, inputs, m), states[m]),
    decreases m,
{
    if m > 0 {
        lemma_summaries(
            query,
            evaluate,
            fetch,
            elapsed,
            average,
            detect,
            integrate,
            seeds,
            measure,
            perturb,
            names,
            settings,
            inputs,
            states,
            m - 1,
        );
        let at = m - 1;
        assert(is_step(
            query,
            evaluate,
            fetch,
            elapsed,
            average,
            detect,
            integrate,
            seeds,
            measure,
            perturb,
            names,
            settings,
            &inputs[at],
            states[at],
            states[at + 1],
        ));
        let before = states[at];
        let after = states[at + 1];
        let populations = modelled(names, inputs, at);
        if !lacks_model(names, inputs[at].transient_type@) {
            let (model, queries) = choose|model: usize, queries: Vec<Vec<usize>>| #[trigger]
                is_entered(
                    evaluate,
                    fetch,
                    elapsed,
                    average,
                    detect,
                    integrate,
                    seeds,
                    measure,
                    perturb,
                    &inputs[at],
                    model,
                    queries@,
                    settings,
                    states[at],
                    states[at + 1],
                );
            let (run, rates) = choose|run: PopulationRun, rates: Rates|
                run.wf() && run.input == &inputs[at] && run.n_transients == settings.n_transients
                    && #[trigger] is_recorded(
                    seeds,
                    measure,
                    perturb,
                    run,
                    rates,
                    settings.include_undetected,
                    states[at],
                    states[at + 1],
                );
            assert(settings.n_transients * populations.len() + settings.n_transients
                == settings.n_transients * (populations.len() + 1)) by (nonlinear_arith);
            assert forall|k: int| 0 <= k < populations.len() + 1 implies {
                &&& (#[trigger] after.rate_summaries@[k]).transient_type@
                    == inputs[populations.push(at)[k]].transient_type@
                &&& after.rate_summaries@[k].volumetric_rate
                    == inputs[populations.push(at)[k]].volumetric_rate
                &&& after.per_type_extras@[k].n_simulated == settings.n_transients
            } by {
                if k < populations.len() {
                    assert(after.rate_summaries@.drop_last()[k] == before.rate_summaries@[k]);
                    assert(after.per_type_extras@[k] == before.per_type_extras@[k]);
                } else {
                    assert(after.rate_summaries@.last() == after.rate_summaries@[k]);
                }
            }
        }
    }
}

/// The summaries of a run are those of the populations that have a model, in the order of the
/// populations, and each of these counts the transients asked for.
pub proof fn law_summaries_of_modelled<
    Q: Fn(&PopulationInput, Double) -> Vec<Vec<usize>>,
    E: Fn(&PopulationInput, usize, &Vec<Sighting>) -> Vec<Option<LightcurveEvaluation>>,
    F: Fn(usize) -> SurveyObservation,
    L: Fn(Double, Double) -> Double,
    C: Fn(&BinSummary) -> StackedValues,
    D: Fn(&PopulationInput, &Vec<Measured>) -> Vec<Verdict>,
    R: Fn(&PopulationInput, usize, &Vec<bool>, usize, Double) -> Rates,
    K: Fn(Double, Double) -> (u64, u64),
    M: Fn(Double, Double) -> (Double, Double),
    P: Fn(Double, Double, u64, u64) -> Double,
>(
    query: &Q,
    evaluate: &E,
    fetch: &F,
    elapsed: &L,
    average: &C,
    detect: &D,
    integrate: &R,
    seeds: &K,
    measure: &M,
    perturb: &P,
    names: Seq<String>,
    settings: RunSettings,
    inputs: Seq<PopulationInput>,
    result: PipelineResult,
)
    requires
        is_outcome(
            query,
            evaluate,
            fetch,
            elapsed,
            average,
            detect,
            integrate,
            seeds,
            measure,
            perturb,
            names,
            settings,
            inputs,
            result,
        ),
    ensures
        summarizes(
            settings.n_transients,
            inputs,
            modelled(names, inputs, inputs.len() as int),
            result,
        ),
{
    let states = choose|states: Seq<PipelineResult>|
        states.len() == inputs.len() + 1 && states.last() == result && #[trigger] is_trace(
            query,
            evaluate,
            fetch,
            elapsed,
            average,
            detect,
            integrate,
            seeds,
            measure,
            perturb,
            names,
            settings,
            inputs,
            states,
        );
    lemma_summaries(
        query,
        evaluate,
        fetch,
        elapsed,
        average,
        detect,
        integrate,
        seeds,
        measure,
        perturb,
        names,
        settings,
        inputs,
        states,
        inputs.len() as int,
    );
}

proof fn lemma_no_undetected<
    Q: Fn(&PopulationInput, Double) -> Vec<Vec<usize>>,
    E: Fn(&PopulationInput, usize, &Vec<Sighting>) -> Vec<Option<LightcurveEvaluation>>,
    F: Fn(usize) -> SurveyObservation,
    L: Fn(Double, Double) -> Double,
    C: Fn(&BinSummary) -> StackedValues,
    D: Fn(&PopulationInput, &Vec<Measured>) -> Vec<Verdict>,
    R: Fn(&PopulationInput, usize, &Vec<bool>, usize, Double) -> Rates,
    K: Fn(Double, Double) -> (u64, u64),
    M: Fn(Double, Double) -> (Double, Double),
    P: Fn(Double, Double, u64, u64) -> Double,
>(
    query: &Q,
    evaluate: &E,
    fetch: &F,
    elapsed: &L,
    average: &C,
    detect: &D,
    integrate: &R,
    seeds: &K,
    measure: &M,
    perturb: &P,
    names: Seq<String>,
    settings: RunSettings,
    inputs: Seq<PopulationInput>,
    states: Seq<PipelineResult>,
    m: int,
)
    requires
        is_trace(
            query,
            evaluate,
            fetch,
            elapsed,
            average,
            detect,
            integrate,
            seeds,
            measure,
            perturb,
            names,
            settings,
            inputs,
            states,
        ),
        0 <= m < states.len(),
        !settings.include_undetected,
    ensures
        states[m].n_undetected == 0,
        states[m].undetected_sources@.len() == 0,
    decreases m,
{
    if m > 0 {
        lemma_no_undetected(
            query,
            evaluate,
            fetch,
            elapsed,
            average,
            detect,
            integrate,
            seeds,
            measure,
            perturb,
            names,
            settings,
            inputs,
            states,
            m - 1,
        );
        let at = m - 1;
        assert(is_step(
            query,
            evaluate,
            fetch,
            elapsed,
            average,
            detect,
            integrate,
            seeds,
            measure,
            perturb,
            names,
            settings,
            &inputs[at],
            states[at],
            states[at + 1],
        ));
        if !lacks_model(names, inputs[at].transient_type@) {
            let (model, queries) = choose|model: usize, queries: Vec<Vec<usize>>| #[trigger]
                is_entered(
                    evaluate,
                    fetch,
                    elapsed,
                    average,
                    detect,
                    integrate,
                    seeds,
                    measure,
                    perturb,
                    &inputs[at],
                    model,
                    queries@,
                    settings,
                    states[at],
                    states[at + 1],
                );
            let (run, rates) = choose|run: PopulationRun, rates: Rates|
                run.wf() && run.input == &inputs[at] && run.n_transients == settings.n_transients
                    && #[trigger] is_recorded(
                    seeds,
                    measure,
                    perturb,
                    run,
                    rates,
                    settings.include_undetected,
                    states[at],
                    states[at + 1],
                );
        }
    }
}

/// A run that is not asked for undetected sources reports none.
pub proof fn law_undetected_on_request<
    Q: Fn(&PopulationInput, Double) -> Vec<Vec<usize>>,
    E: Fn(&PopulationInput, usize, &Vec<Sighting>) -> Vec<Option<LightcurveEvaluation>>,
    F: Fn(usize) -> SurveyObservation,
    L: Fn(Double, Double) -> Double,
    C: Fn(&BinSummary) -> StackedValues,
    D: Fn(&PopulationInput, &Vec<Measured>) -> Vec<Verdict>,
    R: Fn(&PopulationInput, usize, &Vec<bool>, usize, Double) -> Rates,
    K: Fn(Double, Double) -> (u64, u64),
    M: Fn(Double, Double) -> (Double, Double),
    P: Fn(Double, Double, u64, u64) -> Double,
>(
    query: &Q,
    evaluate: &E,
    fetch: &F,
    elapsed: &L,
    average: &C,
    detect: &D,
    integrate: &R,
    seeds: &K,
    measure: &M,
    perturb: &P,
    names: Seq<String>,
    settings: RunSettings,
    inputs: Seq<PopulationInput>,
    result: PipelineResult,
)
    requires
        is_outcome(
            query,
            evaluate,
            fetch,
            elapsed,
            average,
            detect,
            integrate,
            seeds,
            measure,
            perturb,
            names,
            settings,
            inputs,
            result,
        ),
        !settings.include_undetected,
    ensures
        result.n_undetected == 0,
        result.undetected_sources@.len() == 0,
{
    let states = choose|states: Seq<PipelineResult>|
        states.len() == inputs.len() + 1 && states.last() == result && #[trigger] is_trace(
            query,
            evaluate,
            fetch,
            elapsed,
            average,
            detect,
            integrate,
            seeds,
            measure,
            perturb,
            names,
            settings,
            inputs,
            states,
        );
    lemma_no_undetected(
        query,
        evaluate,
        fetch,
        elapsed,
        average,
        detect,
        integrate,
        seeds,
        measure,
        perturb,
        names,
        settings,
        inputs,
        states,
        inputs.len() as int,
    );
}

/// The transients simulated over all shown rates.
pub open spec fn shown_simulated(summaries: Seq<PyRateSummary>) -> int
    decreases summaries.len(),
{
    if summaries.len() == 0 {
        0
    } else {
        shown_simulated(summaries.drop_last()) + summaries.last().n_simulated
    }
}

/// The transients detected over all shown rates.
pub open spec fn shown_detected(summaries: Seq<PyRateSummary>) -> int
    decreases summaries.len(),
{
    if summaries.len() == 0 {
        0
    } else {
        shown_detected(summaries.drop_last()) + summaries.last().n_detected
    }
}

proof fn lemma_shown_sums(extras: Seq<TypeExtras>, summaries: Seq<PyRateSummary>)
    requires
        extras.len() == summaries.len(),
        forall|i: int|
            0 <= i < summaries.len() ==> (#[trigger] summaries[i]).n_simulated
                == extras[i].n_simulated && summaries[i].n_detected == extras[i].n_detected,
    ensures
        shown_simulated(summaries) == total_simulated(extras),
        shown_detected(summaries) == total_detected(extras),
    decreases extras.len(),
{
    if extras.len() > 0 {
        assert forall|i: int| 0 <= i < summaries.drop_last().len() implies (
        #[trigger] summaries.drop_last()[i]).n_simulated == extras.drop_last()[i].n_simulated
            && summaries.drop_last()[i].n_detected == extras.drop_last()[i].n_detected by {
            assert(summaries.drop_last()[i] == summaries[i]);
        }
        lemma_shown_sums(extras.drop_last(), summaries.drop_last());
    }
}

/// The totals of a shown result are the sums over its rates, every undetected source is counted,
/// and there are no more detected sources than detections.
pub proof fn law_shown_totals(
    result: PipelineResult,
    duration_years: Double,
    shown: PySimulationResult,
)
    requires
        result.wf(),
        is_shown_result(result, duration_years, shown),
    ensures
        shown.n_simulated == shown_simulated(shown.rate_summaries@),
        shown.n_detected == shown_detected(shown.rate_summaries@),
        shown.n_undetected == shown.undetected_sources@.len(),
        shown.detected_sources@.len() <= shown.n_detected,
{
    assert forall|i: int| 0 <= i < shown.rate_summaries@.len() implies (
    #[trigger] shown.rate_summaries@[i]).n_simulated == result.per_type_extras@[i].n_simulated
        && shown.rate_summaries@[i].n_detected == result.per_type_extras@[i].n_detected by {
        assert(is_shown(
            result.rate_summaries@[i],
            extras_at(result.per_type_extras@, i),
            duration_years,
            shown.rate_summaries@[i],
        ));
    }
    lemma_shown_sums(result.per_type_extras@, shown.rate_summaries@);
}

/// The sources of a result, all together and one by one, are the same.
pub proof fn law_sources_one_by_one(
    result: PySimulationResult,
    all: Seq<PyDetectedSource>,
    index: int,
    one: PyDetectedSource,
)
    requires
        source_views(all) == source_views(result.detected_sources@),
        0 <= index < result.detected_sources@.len(),
        one@ == result.detected_sources@[index]@,
    ensures
        all.len() == result.detected_sources@.len(),
        all[index]@ == one@,
{
    assert(source_views(all).len() == all.len());
    assert(source_views(all)[index] == all[index]@);
}

/// The copies of all sources and the copy of one say what the sources of the result say, and a copy
/// is refused if and only if there is no source at the index.
pub proof fn law_copied_sources(
    result: PySimulationResult,
    all: Seq<PyDetectedSource>,
    index: usize,
    one: Result<PyDetectedSource, PipelineError>,
)
    requires
        are_copies(result.detected_sources@, all),
        is_source_at(result.detected_sources@, index, one),
    ensures
        all.len() == result.detected_sources@.len(),
        one is Ok <==> index < all.len(),
        one is Ok ==> one->Ok_0@ == all[index as int]@ && one->Ok_0@
            == result.detected_sources@[index as int]@,
        one is Err ==> one->Err_0 is SourceIndexOutOfRange,
        forall|i: int|
            0 <= i < all.len() ==> (#[trigger] all[i])@ == result.detected_sources@[i]@,
{
    assert(source_views(all).len() == all.len());
    assert(source_views(result.detected_sources@).len() == result.detected_sources@.len());
    assert forall|i: int| 0 <= i < all.len() implies (#[trigger] all[i])@
        == result.detected_sources@[i]@ by {
        assert(source_views(all)[i] == all[i]@);
        assert(source_views(result.detected_sources@)[i] == result.detected_sources@[i]@);
    }
}

/// The upper limit depends on the type, the volume-time, the duration and the solid angle of a
/// summary, not on what was simulated or expected at the assumed rate.
pub proof fn law_upper_limit_of<Q: Fn(u64, Double) -> Double, V: Fn(Double, Double) -> Double>(
    poisson: &Q,
    divide: &V,
    summaries: (PyRateSummary, PyRateSummary),
    confidence_level: Double,
    n_observed: u64,
    first: PyRateUpperLimit,
    second: PyRateUpperLimit,
)
    requires
        forall|n: u64, level: Double, r: Double, s: Double| #[trigger]
            call_ensures(*poisson, (n, level), r) && #[trigger] call_ensures(
                *poisson,
                (n, level),
                s,
            ) ==> r == s,
        forall|a: Double, b: Double, r: Double, s: Double| #[trigger]
            call_ensures(*divide, (a, b), r) && #[trigger] call_ensures(*divide, (a, b), s) ==> r
                == s,
        summaries.0.transient_type@ == summaries.1.transient_type@,
        summaries.0.effective_vt_gpc3_yr == summaries.1.effective_vt_gpc3_yr,
        summaries.0.survey_duration_years == summaries.1.survey_duration_years,
        summaries.0.survey_omega_sr == summaries.1.survey_omega_sr,
        is_upper_limit(poisson, divide, summaries.0, confidence_level, n_observed, first),
        is_upper_limit(poisson, divide, summaries.1, confidence_level, n_observed, second),
    ensures
        first.transient_type@ == second.transient_type@,
        first.n_observed == second.n_observed,
        first.confidence_level == second.confidence_level,
        first.n_upper == second.n_upper,
        first.effective_vt_gpc3_yr == second.effective_vt_gpc3_yr,
        first.rate_upper == second.rate_upper,
        first.survey_duration_years == second.survey_duration_years,
        first.survey_omega_sr == second.survey_omega_sr,
{
}

} // verus!
