//! What a run makes of its populations.
use vstd::prelude::*;

use crate::dispatch::is_model_of;
use crate::double::Double;
use crate::matching::{is_selected, selected, SelectionCuts, Sighting, Verdict};
use crate::matching_laws::{are_all_measured, are_asked, law_measured_transients};
use crate::measurement::{is_measurement, Measured};
use crate::pipeline::{
    are_rates, is_entered, is_judged, is_recorded, PipelineResult, PopulationRun, Rates,
    RunSettings,
};
use crate::selection_laws::{is_kept, law_kept_detections};
use crate::simulation::{is_outcome, is_step, is_trace};
use crate::source_laws::{are_rate_inputs, law_rates_use_every_verdict};
use crate::sources::PopulationInput;
use crate::stacking::{BinSummary, StackedValues};
use crate::survey::{LightcurveEvaluation, SurveyObservation};

verus! {

/// The verdict on each measured transient is that of the detection with the cuts applied to it.
pub open spec fn are_judged(
    cuts: SelectionCuts,
    verdicts: Seq<Verdict>,
    detected: Seq<bool>,
) -> bool {
    &&& detected.len() == verdicts.len()
    &&& forall|k: int|
        0 <= k < verdicts.len() ==> #[trigger] detected[k] == is_kept(cuts, verdicts[k])
}

/// `run` is one population with the transients measured that exposures and a lightcurve were found
/// for, each judged by its own detection and the cuts.
pub open spec fn is_population_run<
    E: Fn(&PopulationInput, usize, &Vec<Sighting>) -> Vec<Option<LightcurveEvaluation>>,
    F: Fn(usize) -> SurveyObservation,
    L: Fn(Double, Double) -> Double,
    C: Fn(&BinSummary) -> StackedValues,
    D: Fn(&PopulationInput, &Vec<Measured>) -> Vec<Verdict>,
>(
    evaluate: &E,
    fetch: &F,
    elapsed: &L,
    average: &C,
    detect: &D,
    input: &PopulationInput,
    model: usize,
    queries: Seq<Vec<usize>>,
    settings: RunSettings,
    run: PopulationRun,
) -> bool {
    &&& run.input == input
    &&& run.n_transients == settings.n_transients
    &&& run.wf()
    &&& exists|sightings: Vec<Sighting>, results: Vec<Option<LightcurveEvaluation>>|
        are_asked(queries, sightings@) && #[trigger] call_ensures(
            *evaluate,
            (input, model, &sightings),
            results,
        ) && are_all_measured(
            fetch,
            elapsed,
            average,
            queries,
            settings.windows_days,
            sightings@,
            results@,
            run.measured@,
        )
    &&& exists|verdicts: Vec<Verdict>| #[trigger]
        call_ensures(*detect, (input, &run.measured), verdicts) && are_judged(
            settings.cuts,
            verdicts@,
            run.detected@,
        )
}

/// The rates of a population come from the verdicts on all its transients.
pub open spec fn are_population_rates<
    R: Fn(&PopulationInput, usize, &Vec<bool>, usize, Double) -> Rates,
>(integrate: &R, run: PopulationRun, rates: Rates) -> bool {
    exists|asked: usize, flags: Vec<bool>, n: usize, z_max: Double|
        are_rate_inputs(run, asked, flags@, n, z_max) && #[trigger] call_ensures(
            *integrate,
            (run.input, asked, &flags, n, z_max),
            rates,
        )
}

/// A population is run with all its transients: what is entered for it is the count, the rates and
/// the sources of a run in which every transient that exposures and a lightcurve were found for is
/// judged, and no other.
pub proof fn law_population_explained<
    E: Fn(&PopulationInput, usize, &Vec<Sighting>) -> Vec<Option<LightcurveEvaluation>>,
    F: Fn(usize) -> SurveyObservation,
    L: Fn(Double, Double) -> Double,
    C: Fn(&BinSummary) -> StackedValues,
    D: Fn(&PopulationInput, &Vec<Measured>) -> Vec<Verdict>,
    R: Fn(&PopulationInput, usize, &Vec<bool>, usize, Double) -> Rates,
    K: Fn(Double, Double) -> (u64, u64),
    M: Fn(Double, Double) -> (Double, Double),
    P: Fn(Double, Double, u64, u64) -> Double,
>(
    evaluate: &E,
    fetch: &F,
    elapsed: &L,
    average: &C,
    detect: &D,
    integrate: &R,
    seeds: &K,
    measure: &M,
    perturb: &P,
    input: &PopulationInput,
    model: usize,
    queries: Seq<Vec<usize>>,
    settings: RunSettings,
    before: PipelineResult,
    after: PipelineResult,
)
    requires
        is_entered(
            evaluate,
            fetch,
            elapsed,
            average,
            detect,
            integrate,
            seeds,
            measure,
            perturb,
            input,
            model,
            queries,
            settings,
            before,
            after,
        ),
    ensures
        exists|run: PopulationRun, rates: Rates|
            is_population_run(
                evaluate,
                fetch,
                elapsed,
                average,
                detect,
                input,
                model,
                queries,
                settings,
                run,
            ) && are_population_rates(integrate, run, rates) && #[trigger] is_recorded(
                seeds,
                measure,
                perturb,
                run,
                rates,
                settings.include_undetected,
                before,
                after,
            ),
{
    let (run, rates) = choose|run: PopulationRun, rates: Rates|
        run.wf() && is_measurement(
            evaluate,
            fetch,
            elapsed,
            average,
            input,
            model,
            queries,
            settings.windows_days,
            run.measured@,
        ) && is_judged(detect, settings, input, run) && are_rates(integrate, run, rates)
            && #[trigger] is_recorded(
            seeds,
            measure,
            perturb,
            run,
            rates,
            settings.include_undetected,
            before,
            after,
        );
    law_measured_transients(
        evaluate,
        fetch,
        elapsed,
        average,
        input,
        model,
        queries,
        settings.windows_days,
        run.measured@,
    );
    law_rates_use_every_verdict(integrate, run, rates);
    let verdicts = choose|verdicts: Vec<Verdict>| #[trigger]
        call_ensures(*detect, (input, &run.measured), verdicts) && run.detected@ == selected(
            settings.cuts,
            verdicts@,
        );
    assert(are_judged(settings.cuts, verdicts@, run.detected@)) by {
        assert forall|k: int| 0 <= k < verdicts@.len() implies #[trigger] run.detected@[k]
            == is_kept(settings.cuts, verdicts@[k]) by {
            law_kept_detections(settings.cuts, verdicts@[k]);
            assert(run.detected@[k] == is_selected(settings.cuts, verdicts@[k]));
        }
    }
    assert(is_population_run(
        evaluate,
        fetch,
        elapsed,
        average,
        detect,
        input,
        model,
        queries,
        settings,
        run,
    ));
    assert(are_population_rates(integrate, run, rates));
}

/// Population `i` takes the result from one state to the next: it is entered with the first model
/// of its name and the exposures found for it, and passed over if there is no such model.
pub open spec fn is_taken_in<
    Q: Fn(&PopulationInput, Double) -> Vec<Vec<usize>>,
    E: Fn(&PopulationInput, usize, &Vec<Sighting>) -> Vec<Option<LightcurveEvaluation>>,
    F: Fn(usize) -> SurveyObservation,
    L: Fn(Double, Double) -> Double,
    C: Fn(&BinSummary) -> StackedValues,
    D: Fn(&PopulationInput, &Vec<Measured>) -> Vec<Verdict>,
    R: Fn(&PopulationInput, usize, &Vec<bool>, usize, Double) -> Rates,
    K: Fn(Double, Double) -> (u64, u64),
    M: Fn(Double, Double) -> (Double, Double),
    P: Fn(Double, Double, u64, u64) -> Double,
>(
    query: &Q,
    evaluate: &E,
    fetch: &F,
    elapsed: &L,
    average: &C,
    detect: &D,
    integrate: &R,
    seeds: &K,
    measure: &M,
    perturb: &P,
    names: Seq<String>,
    settings: RunSettings,
    input: &PopulationInput,
    before: PipelineResult,
    after: PipelineResult,
) -> bool {
    &&& (forall|m: int| 0 <= m < names.len() ==> (#[trigger] names[m])@ != input.transient_type@)
        ==> after == before
    &&& (exists|m: int| 0 <= m < names.len() && (#[trigger] names[m])@ == input.transient_type@)
        ==> exists|
        model: usize,
        queries: Vec<Vec<usize>>,
        run: PopulationRun,
        rates: Rates,
    |
        {
            &&& model < names.len()
            &&& names[model as int]@ == input.transient_type@
            &&& forall|m: int| 0 <= m < model ==> (#[trigger] names[m])@ != input.transient_type@
            &&& #[trigger] call_ensures(*query, (input, settings.time_window_days), queries)
            &&& #[trigger] is_population_run(
                evaluate,
                fetch,
                elapsed,
                average,
                detect,
                input,
                model,
                queries@,
                settings,
                run,
            )
            &&& are_population_rates(integrate, run, rates)
            &&& #[trigger] is_recorded(
                seeds,
                measure,
                perturb,
                run,
                rates,
                settings.include_undetected,
                before,
                after,
            )
        }
}

/// The states that a result passes through: it starts from nothing, and `result` is the last.
pub open spec fn is_history(states: Seq<PipelineResult>, count: int, result: PipelineResult) -> bool {
    &&& states.len() == count + 1
    &&& states[0].n_simulated == 0
    &&& states[0].n_detected == 0
    &&& states[0].n_undetected == 0
    &&& states[0].rate_summaries@.len() == 0
    &&& states[0].per_type_extras@.len() == 0
    &&& states[0].detected_sources@.len() == 0
    &&& states[0].undetected_sources@.len() == 0
    &&& states[count] == result
}

/// A run starts from nothing and takes in every population, one after the other in their order,
/// each with its model and the exposures found for it in the time window; its result is what the
/// last one leaves.
pub proof fn law_run_explained<
    Q: Fn(&PopulationInput, Double) -> Vec<Vec<usize>>,
    E: Fn(&PopulationInput, usize, &Vec<Sighting>) -> Vec<Option<LightcurveEvaluation>>,
    F: Fn(usize) -> SurveyObservation,
    L: Fn(Double, Double) -> Double,
    C: Fn(&BinSummary) -> StackedValues,
    D: Fn(&PopulationInput, &Vec<Measured>) -> Vec<Verdict>,
    R: Fn(&PopulationInput, usize, &Vec<bool>, usize, Double) -> Rates,
    K: Fn(Double, Double) -> (u64, u64),
    M: Fn(Double, Double) -> (Double, Double),
    P: Fn(Double, Double, u64, u64) -> Double,
>(
    query: &Q,
    evaluate: &E,
    fetch: &F,
    elapsed: &L,
    average: &C,
    detect: &D,
    integrate: &R,
    seeds: &K,
    measure: &M,
    perturb: &P,
    names: Seq<String>,
    settings: RunSettings,
    inputs: Seq<PopulationInput>,
    result: PipelineResult,
)
    requires
        is_outcome(
            query,
            evaluate,
            fetch,
            elapsed,
            average,
            detect,
            integrate,
            seeds,
            measure,
            perturb,
            names,
            settings,
            inputs,
            result,
        ),
    ensures
        exists|states: Seq<PipelineResult>|
            {
                &&& #[trigger] is_history(states, inputs.len() as int, result)
                &&& forall|i: int|
                    0 <= i < inputs.len() ==> is_taken_in(
                        query,
                        evaluate,
                        fetch,
                        elapsed,
                        average,
                        detect,
                        integrate,
                        seeds,
                        measure,
                        perturb,
                        names,
                        settings,
                        &#[trigger] inputs[i],
                        states[i],
                        states[i + 1],
                    )
            },
{
    let states = choose|states: Seq<PipelineResult>|
        states.len() == inputs.len() + 1 && states.last() == result && #[trigger] is_trace(
            query,
            evaluate,
            fetch,
            elapsed,
            average,
            detect,
            integrate,
            seeds,
            measure,
            perturb,
            names,
            settings,
            inputs,
            states,
        );
    assert forall|i: int| 0 <= i < inputs.len() implies is_taken_in(
        query,
        evaluate,
        fetch,
        elapsed,
        average,
        detect,
        integrate,
        seeds,
        measure,
        perturb,
        names,
        settings,
        &#[trigger] inputs[i],
        states[i],
        states[i + 1],
    ) by {
        let input = &inputs[i];
        assert(is_step(
            query,
            evaluate,
            fetch,
            elapsed,
            average,
            detect,
            integrate,
            seeds,
            measure,
            perturb,
            names,
            settings,
            &inputs[i],
            states[i],
            states[i + 1],
        ));
        if exists|m: int| 0 <= m < names.len() && (#[trigger] names[m])@ == input.transient_type@ {
            let (model, queries) = choose|model: usize, queries: Vec<Vec<usize>>|
                is_model_of(names, input.transient_type@, model) && call_ensures(
                    *query,
                    (input, settings.time_window_days),
                    queries,
                ) && #[trigger] is_entered(
                    evaluate,
                    fetch,
                    elapsed,
                    average,
                    detect,
                    integrate,
                    seeds,
                    measure,
                    perturb,
                    input,
                    model,
                    queries@,
                    settings,
                    states[i],
                    states[i + 1],
                );
            law_population_explained(
                evaluate,
                fetch,
                elapsed,
                average,
                detect,
                integrate,
                seeds,
                measure,
                perturb,
                input,
                model,
                queries@,
                settings,
                states[i],
                states[i + 1],
            );
            assert forall|m: int| 0 <= m < model implies (#[trigger] names[m])@
                != input.transient_type@ by {
                assert(names.take(model as int)[m] == names[m]);
            }
        }
    }
    assert(is_history(states, inputs.len() as int, result));
}

} // verus!
