//! A simulation run over populations.
use rand::rngs::SmallRng;
use vstd::prelude::*;

use crate::dispatch::{
    are_built, build_populations, find_model, is_build_failure, is_model_of, lacks_model,
    BuildError, PopulationKind,
};
use crate::double::Double;
use crate::matching::{lemma_count_set, SelectionCuts, Sighting, Verdict};
use crate::measurement::{is_measurement_refused, Measured};
use crate::noise::{seeded_generator, seeded_words, upcoming_words};
use crate::pipeline::{
    are_sources, is_entered, is_ready, is_recorded, law_sources_bounded, lemma_ascending_bounded,
    run_population, PipelineResult, PopulationRun, Rates, RunSettings,
};
use crate::results::{is_shown_result, PySimulationResult};
use crate::sources::{source_views, PopulationInput, SourceView};
use crate::stacking::{BinSummary, StackedValues};
use crate::survey::{LightcurveEvaluation, SurveyObservation};

verus! {

/// How many transients populations hold.
pub open spec fn total_generated(inputs: Seq<PopulationInput>) -> int
    decreases inputs.len(),
{
    if inputs.len() == 0 {
        0
    } else {
        total_generated(inputs.drop_last()) + inputs.last().instances@.len()
    }
}

/// The populations that there is a model for: the others are passed over.
pub open spec fn modelled(names: Seq<String>, inputs: Seq<PopulationInput>) -> Seq<
    PopulationInput,
> {
    inputs.filter(|input: PopulationInput| !lacks_model(names, input.transient_type@))
}

/// The counts over all populations that there is a model for fit a machine word.
pub open spec fn are_countable(
    names: Seq<String>,
    n_transients: usize,
    inputs: Seq<PopulationInput>,
) -> bool {
    &&& n_transients * modelled(names, inputs).len() <= usize::MAX
    &&& total_generated(modelled(names, inputs)) <= usize::MAX
}

/// No transient of any population has a model parameter twice.
pub open spec fn are_all_wf(inputs: Seq<PopulationInput>) -> bool {
    forall|i: int| 0 <= i < inputs.len() ==> (#[trigger] inputs[i]).wf()
}

/// Whether the counts over all populations that there is a model for fit a machine word.
pub fn is_countable(
    names: &Vec<String>,
    n_transients: usize,
    inputs: &Vec<PopulationInput>,
) -> (res: bool)
    ensures
        res == are_countable(names@, n_transients, inputs@),
{
    let mut count: usize = 0;
    let mut total: usize = 0;
    proof {
        lemma_modelled(names@, inputs@, 0);
    }
    for i in 0..inputs.len()
        invariant
            count <= i,
            count == modelled(names@, inputs@.take(i as int)).len(),
            total == total_generated(modelled(names@, inputs@.take(i as int))),
    {
        proof {
            lemma_modelled(names@, inputs@, i as int);
            lemma_modelled(names@, inputs@, i + 1);
        }
        if let Some(model) = find_model(names, &inputs[i].transient_type) {
            assert(names@[model as int]@ == inputs@[i as int].transient_type@);
            count = count + 1;
            match total.checked_add(inputs[i].instances.len()) {
                None => {
                    return false;
                },
                Some(sum) => {
                    total = sum;
                },
            }
        }
    }
    assert(inputs@.take(inputs@.len() as int) =~= inputs@);
    n_transients.checked_mul(count).is_some()
}

/// A part of the populations holds no more than all, and a population adds to it if there is a
/// model for it.
proof fn lemma_modelled(names: Seq<String>, inputs: Seq<PopulationInput>, n: int)
    requires
        0 <= n <= inputs.len(),
    ensures
        n == 0 ==> modelled(names, inputs.take(n)).len() == 0,
        modelled(names, inputs.take(n)).len() <= modelled(names, inputs).len(),
        0 <= total_generated(modelled(names, inputs.take(n))) <= total_generated(
            modelled(names, inputs),
        ),
        n < inputs.len() && lacks_model(names, inputs[n].transient_type@) ==> modelled(
            names,
            inputs.take(n + 1),
        ) == modelled(names, inputs.take(n)),
        n < inputs.len() && !lacks_model(names, inputs[n].transient_type@) ==> {
            &&& modelled(names, inputs.take(n + 1)).len() == modelled(names, inputs.take(n)).len()
                + 1
            &&& total_generated(modelled(names, inputs.take(n + 1))) == total_generated(
                modelled(names, inputs.take(n)),
            ) + inputs[n].instances@.len()
        },
    decreases inputs.len(),
{
    reveal(Seq::filter);
    if n < inputs.len() {
        lemma_modelled_last(names, inputs.take(n + 1));
        assert(inputs.take(n + 1).drop_last() =~= inputs.take(n));
        assert(inputs.drop_last().take(n) =~= inputs.take(n));
        lemma_modelled(names, inputs.drop_last(), n);
        lemma_modelled_last(names, inputs);
    } else if n > 0 {
        lemma_modelled(names, inputs.drop_last(), n - 1);
        lemma_modelled_last(names, inputs);
        assert(inputs.take(n) =~= inputs);
        assert(inputs.drop_last().take(n - 1) =~= inputs.drop_last());
    } else {
        assert(inputs.take(n) =~= inputs);
    }
}

/// What the last population adds.
proof fn lemma_modelled_last(names: Seq<String>, inputs: Seq<PopulationInput>)
    requires
        inputs.len() > 0,
    ensures
        modelled(names, inputs) == if lacks_model(names, inputs.last().transient_type@) {
            modelled(names, inputs.drop_last())
        } else {
            modelled(names, inputs.drop_last()).push(inputs.last())
        },
        total_generated(modelled(names, inputs)) == total_generated(
            modelled(names, inputs.drop_last()),
        ) + if lacks_model(names, inputs.last().transient_type@) {
            0
        } else {
            inputs.last().instances@.len() as int
        },
{
    reveal(Seq::filter);
    let before = modelled(names, inputs.drop_last());
    assert(before.push(inputs.last()).drop_last() =~= before);
}

/// `query` can be called, and it gives a list of exposures for each transient.
pub open spec fn is_query<
    Q: Fn(&PopulationInput, Double) -> Vec<Vec<usize>>,
>(query: &Q) -> bool {
    &&& forall|input: PopulationInput, days: Double| call_requires(*query, (&input, days))
    &&& forall|input: PopulationInput, days: Double, queries: Vec<Vec<usize>>| #[trigger]
        call_ensures(*query, (&input, days), queries) ==> queries@.len()
            == input.instances@.len()
}

/// `after` is what a run can make of `before` with a population: it is passed over if there is no
/// model for its type.
pub open spec fn is_step<
    Q: Fn(&PopulationInput, Double) -> Vec<Vec<usize>>,
    E: Fn(&PopulationInput, usize, &Vec<Sighting>) -> Vec<Option<LightcurveEvaluation>>,
    F: Fn(usize) -> SurveyObservation,
    L: Fn(Double, Double) -> Double,
    C: Fn(&BinSummary) -> StackedValues,
    D: Fn(&PopulationInput, &Vec<Measured>) -> Vec<Verdict>,
    R: Fn(&PopulationInput, usize, &Vec<bool>, usize, Double) -> Rates,
    K: Fn(Double, Double) -> (u64, u64),
    M: Fn(Double, Double) -> (Double, Double),
    P: Fn(Double, Double, u64, u64) -> Double,
>(
    query: &Q,
    evaluate: &E,
    fetch: &F,
    elapsed: &L,
    average: &C,
    detect: &D,
    integrate: &R,
    seeds: &K,
    measure: &M,
    perturb: &P,
    names: Seq<String>,
    settings: RunSettings,
    input: &PopulationInput,
    before: PipelineResult,
    after: PipelineResult,
) -> bool {
    if lacks_model(names, input.transient_type@) {
        after == before
    } else {
        exists|model: usize, queries: Vec<Vec<usize>>|
            is_model_of(names, input.transient_type@, model) && call_ensures(
                *query,
                (input, settings.time_window_days),
                queries,
            ) && #[trigger] is_entered(
                evaluate,
                fetch,
                elapsed,
                average,
                detect,
                integrate,
                seeds,
                measure,
                perturb,
                input,
                model,
                queries@,
                settings,
                before,
                after,
            )
    }
}

/// `states` are the results that a run over the first populations can pass through.
pub open spec fn is_trace<
    Q: Fn(&PopulationInput, Double) -> Vec<Vec<usize>>,
    E: Fn(&PopulationInput, usize, &Vec<Sighting>) -> Vec<Option<LightcurveEvaluation>>,
    F: Fn(usize) -> SurveyObservation,
    L: Fn(Double, Double) -> Double,
    C: Fn(&BinSummary) -> StackedValues,
    D: Fn(&PopulationInput, &Vec<Measured>) -> Vec<Verdict>,
    R: Fn(&PopulationInput, usize, &Vec<bool>, usize, Double) -> Rates,
    K: Fn(Double, Double) -> (u64, u64),
    M: Fn(Double, Double) -> (Double, Double),
    P: Fn(Double, Double, u64, u64) -> Double,
>(
    query: &Q,
    evaluate: &E,
    fetch: &F,
    elapsed: &L,
    average: &C,
    detect: &D,
    integrate: &R,
    seeds: &K,
    measure: &M,
    perturb: &P,
    names: Seq<String>,
    settings: RunSettings,
    inputs: Seq<PopulationInput>,
    states: Seq<PipelineResult>,
) -> bool {
    &&& 0 < states.len() <= inputs.len() + 1
    &&& states[0].is_fresh()
    &&& forall|i: int|
        0 <= i < states.len() - 1 ==> is_step(
            query,
            evaluate,
            fetch,
            elapsed,
            average,
            detect,
            integrate,
            seeds,
            measure,
            perturb,
            names,
            settings,
            &#[trigger] inputs[i],
            states[i],
            states[i + 1],
        )
}

/// `result` is what a run over the populations can give.
pub open spec fn is_outcome<
    Q: Fn(&PopulationInput, Double) -> Vec<Vec<usize>>,
    E: Fn(&PopulationInput, usize, &Vec<Sighting>) -> Vec<Option<LightcurveEvaluation>>,
    F: Fn(usize) -> SurveyObservation,
    L: Fn(Double, Double) -> Double,
    C: Fn(&BinSummary) -> StackedValues,
    D: Fn(&PopulationInput, &Vec<Measured>) -> Vec<Verdict>,
    R: Fn(&PopulationInput, usize, &Vec<bool>, usize, Double) -> Rates,
    K: Fn(Double, Double) -> (u64, u64),
    M: Fn(Double, Double) -> (Double, Double),
    P: Fn(Double, Double, u64, u64) -> Double,
>(
    query: &Q,
    evaluate: &E,
    fetch: &F,
    elapsed: &L,
    average: &C,
    detect: &D,
    integrate: &R,
    seeds: &K,
    measure: &M,
    perturb: &P,
    names: Seq<String>,
    settings: RunSettings,
    inputs: Seq<PopulationInput>,
    result: PipelineResult,
) -> bool {
    exists|states: Seq<PipelineResult>|
        states.len() == inputs.len() + 1 && states.last() == result && #[trigger] is_trace(
            query,
            evaluate,
            fetch,
            elapsed,
            average,
            detect,
            integrate,
            seeds,
            measure,
            perturb,
            names,
            settings,
            inputs,
            states,
        )
}

/// Stacking can have no answer for some transient of some population.
pub open spec fn is_run_refused<
    Q: Fn(&PopulationInput, Double) -> Vec<Vec<usize>>,
    E: Fn(&PopulationInput, usize, &Vec<Sighting>) -> Vec<Option<LightcurveEvaluation>>,
    F: Fn(usize) -> SurveyObservation,
    L: Fn(Double, Double) -> Double,
    C: Fn(&BinSummary) -> StackedValues,
>(
    query: &Q,
    evaluate: &E,
    fetch: &F,
    elapsed: &L,
    average: &C,
    names: Seq<String>,
    settings: RunSettings,
    inputs: Seq<PopulationInput>,
) -> bool {
    exists|population: int, model: usize, queries: Vec<Vec<usize>>|
        0 <= population < inputs.len() && is_model_of(
            names,
            inputs[population].transient_type@,
            model,
        ) && call_ensures(
            *query,
            (&inputs[population], settings.time_window_days),
            queries,
        ) && #[trigger] is_measurement_refused(
            evaluate,
            fetch,
            elapsed,
            average,
            &inputs[population],
            model,
            queries@,
            settings.windows_days,
        )
}

/// A population adds what was asked for to the transients simulated, and no more than it holds to
/// those detected and to those reported as not detected.
proof fn lemma_entered_bounds<
    E: Fn(&PopulationInput, usize, &Vec<Sighting>) -> Vec<Option<LightcurveEvaluation>>,
    F: Fn(usize) -> SurveyObservation,
    L: Fn(Double, Double) -> Double,
    C: Fn(&BinSummary) -> StackedValues,
    D: Fn(&PopulationInput, &Vec<Measured>) -> Vec<Verdict>,
    R: Fn(&PopulationInput, usize, &Vec<bool>, usize, Double) -> Rates,
    K: Fn(Double, Double) -> (u64, u64),
    M: Fn(Double, Double) -> (Double, Double),
    P: Fn(Double, Double, u64, u64) -> Double,
>(
    evaluate: &E,
    fetch: &F,
    elapsed: &L,
    average: &C,
    detect: &D,
    integrate: &R,
    seeds: &K,
    measure: &M,
    perturb: &P,
    input: &PopulationInput,
    model: usize,
    queries: Seq<Vec<usize>>,
    settings: RunSettings,
    before: PipelineResult,
    after: PipelineResult,
)
    requires
        is_entered(
            evaluate,
            fetch,
            elapsed,
            average,
            detect,
            integrate,
            seeds,
            measure,
            perturb,
            input,
            model,
            queries,
            settings,
            before,
            after,
        ),
    ensures
        after.n_simulated == before.n_simulated + settings.n_transients,
        after.n_detected <= before.n_detected + input.instances@.len(),
        after.undetected_sources@.len() <= before.undetected_sources@.len()
            + input.instances@.len(),
{
    let (run, rates) = choose|run: PopulationRun, rates: Rates|
        run.wf() && run.input == input && run.n_transients == settings.n_transients
            && #[trigger] is_recorded(
            seeds,
            measure,
            perturb,
            run,
            rates,
            settings.include_undetected,
            before,
            after,
        );
    lemma_ascending_bounded(run.measured@, input.instances@.len());
    lemma_count_set(run.detected@);
    if settings.include_undetected {
        let added = choose|added: Seq<SourceView>| #[trigger]
            are_sources(seeds, measure, perturb, run, false, added) && source_views(
                after.undetected_sources@,
            ) == source_views(before.undetected_sources@) + added;
        law_sources_bounded(seeds, measure, perturb, run, false, added);
        assert(source_views(after.undetected_sources@).len() == after.undetected_sources@.len());
    }
}

/// Runs all populations in order. `names` are the types that models are there for; a population
/// whose type has none is passed over. `query` finds the exposures of the transients of a
/// population.
///
/// There is no answer when stacking has none for some transient.
pub fn run_pipeline<
    Q: Fn(&PopulationInput, Double) -> Vec<Vec<usize>>,
    E: Fn(&PopulationInput, usize, &Vec<Sighting>) -> Vec<Option<LightcurveEvaluation>>,
    F: Fn(usize) -> SurveyObservation,
    L: Fn(Double, Double) -> Double,
    C: Fn(&BinSummary) -> StackedValues,
    D: Fn(&PopulationInput, &Vec<Measured>) -> Vec<Verdict>,
    R: Fn(&PopulationInput, usize, &Vec<bool>, usize, Double) -> Rates,
    K: Fn(Double, Double) -> (u64, u64),
    M: Fn(Double, Double) -> (Double, Double),
    P: Fn(Double, Double, u64, u64) -> Double,
>(
    inputs: &Vec<PopulationInput>,
    names: &Vec<String>,
    settings: &RunSettings,
    query: &Q,
    evaluate: &E,
    fetch: &F,
    elapsed: &L,
    average: &C,
    detect: &D,
    integrate: &R,
    seeds: &K,
    measure: &M,
    perturb: &P,
) -> (res: Option<PipelineResult>)
    requires
        is_query(query),
        is_ready(evaluate, fetch, elapsed, average, detect, integrate, seeds, measure, perturb),
        are_countable(names@, settings.n_transients, inputs@),
        are_all_wf(inputs@),
    ensures
        match res {
            Some(result) => result.wf() && is_outcome(
                query,
                evaluate,
                fetch,
                elapsed,
                average,
                detect,
                integrate,
                seeds,
                measure,
                perturb,
                names@,
                *settings,
                inputs@,
                result,
            ),
            None => is_run_refused(
                query,
                evaluate,
                fetch,
                elapsed,
                average,
                names@,
                *settings,
                inputs@,
            ),
        },
{
    let mut result = PipelineResult::new();
    let ghost mut states: Seq<PipelineResult> = seq![result];
    proof {
        lemma_modelled(names@, inputs@, 0);
        let n = settings.n_transients;
        let none = modelled(names@, inputs@.take(0)).len();
        assert(n * none == 0) by (nonlinear_arith)
            requires
                none == 0,
        ;
    }
    for i in 0..inputs.len()
        invariant
            is_query(query),
            is_ready(evaluate, fetch, elapsed, average, detect, integrate, seeds, measure, perturb),
            are_countable(names@, settings.n_transients, inputs@),
            are_all_wf(inputs@),
            result.wf(),
            states.len() == i + 1,
            states.last() == result,
            is_trace(
                query,
                evaluate,
                fetch,
                elapsed,
                average,
                detect,
                integrate,
                seeds,
                measure,
                perturb,
                names@,
                *settings,
                inputs@,
                states,
            ),
            result.n_simulated == settings.n_transients * modelled(
                names@,
                inputs@.take(i as int),
            ).len(),
            result.n_detected <= total_generated(modelled(names@, inputs@.take(i as int))),
            result.undetected_sources@.len() <= total_generated(
                modelled(names@, inputs@.take(i as int)),
            ),
    {
        let ghost before = result;
        let ghost past = states;
        let input = &inputs[i];
        proof {
            lemma_modelled(names@, inputs@, i as int);
            lemma_modelled(names@, inputs@, i + 1);
        }
        if let Some(model) = find_model(names, &input.transient_type) {
            proof {
                assert(names@[model as int]@ == input.transient_type@);
                let n = settings.n_transients;
                let past = modelled(names@, inputs@.take(i as int)).len();
                let all = modelled(names@, inputs@).len();
                assert(n * past + n == n * (past + 1)) by (nonlinear_arith);
                assert(n * (past + 1) <= n * all) by (nonlinear_arith)
                    requires
                        past + 1 <= all,
                ;
            }
            let queries = query(input, settings.time_window_days);
            let done: bool = run_population(
                &mut result,
                input,
                model,
                &queries,
                settings,
                evaluate,
                fetch,
                elapsed,
                average,
                detect,
                integrate,
                seeds,
                measure,
                perturb,
            );
            if !done {
                return None;
            }
            proof {
                lemma_entered_bounds(
                    evaluate,
                    fetch,
                    elapsed,
                    average,
                    detect,
                    integrate,
                    seeds,
                    measure,
                    perturb,
                    input,
                    model,
                    queries@,
                    *settings,
                    before,
                    result,
                );
            }
        }
        proof {
            states = past.push(result);
            assert forall|j: int| 0 <= j < states.len() - 1 implies is_step(
                query,
                evaluate,
                fetch,
                elapsed,
                average,
                detect,
                integrate,
                seeds,
                measure,
                perturb,
                names@,
                *settings,
                &#[trigger] inputs@[j],
                states[j],
                states[j + 1],
            ) by {
                if j < i {
                    assert(states[j] == past[j]);
                    assert(states[j + 1] == past[j + 1]);
                } else {
                    assert(states[j] == before);
                    assert(states[j + 1] == result);
                }
            }
        }
    }
    Some(result)
}

/// A simulation: what is asked for of each population, the seed that they are generated from, and
/// how their transients are measured and selected.
#[derive(Debug)]
pub struct PySimulationPipeline {
    /// The types of transient that models are there for.
    pub model_names: Vec<String>,
    pub cuts: SelectionCuts,
    pub n_transients: usize,
    pub seed: u64,
    /// If set, exposures are stacked at these time windows, in seconds, before transients are
    /// judged. Several windows give independent measurements that are all combined.
    pub stack_windows_s: Option<Vec<Double>>,
    /// How many days after the explosion exposures count, in the frame of the transient.
    pub time_window_days: Double,
}

/// Why a simulation has no result.
#[derive(Debug)]
pub enum RunError<Z> {
    /// A population could not be built.
    Build(BuildError<Z>),
    /// The transients are too many to count in a machine word.
    Uncountable,
    /// Times or depths that cannot be put in order were to be stacked.
    Incomparable,
}

/// `windows` are the time windows in days: `days` can give them from seconds.
pub open spec fn are_windows_in_days<Y: Fn(Double) -> Double>(
    days: &Y,
    seconds: Option<Vec<Double>>,
    windows: Option<Vec<Double>>,
) -> bool {
    match (seconds, windows) {
        (None, None) => true,
        (Some(from), Some(to)) => from@.len() == to@.len() && forall|i: int|
            0 <= i < to@.len() ==> call_ensures(*days, (from@[i],), #[trigger] to@[i]),
        _ => false,
    }
}

/// `inputs` are populations that `generate` can draw, one after the other, with `generators` the
/// states that the generator passes through.
pub open spec fn are_draws<G, H: Fn(SmallRng, &G, usize) -> (PopulationInput, SmallRng)>(
    generate: &H,
    built: Seq<G>,
    n_transients: usize,
    generators: Seq<SmallRng>,
    inputs: Seq<PopulationInput>,
) -> bool {
    &&& inputs.len() == built.len()
    &&& generators.len() == built.len() + 1
    &&& forall|i: int|
        0 <= i < built.len() ==> call_ensures(
            *generate,
            (generators[i], &built[i], n_transients),
            (#[trigger] inputs[i], generators[i + 1]),
        )
}

/// `inputs` are populations that `generate` can draw in order from one generator.
pub open spec fn are_drawn<G, H: Fn(SmallRng, &G, usize) -> (PopulationInput, SmallRng)>(
    generate: &H,
    rng: SmallRng,
    built: Seq<G>,
    n_transients: usize,
    inputs: Seq<PopulationInput>,
) -> bool {
    exists|generators: Seq<SmallRng>| #[trigger]
        are_draws(generate, built, n_transients, generators, inputs) && generators[0] == rng
}

/// Draws each population once, in order, with the given number of transients, all from one
/// generator. `generate` hands the generator on in the state that it leaves it in.
pub fn draw_populations<G, H: Fn(SmallRng, &G, usize) -> (PopulationInput, SmallRng)>(
    rng: SmallRng,
    built: &Vec<G>,
    n_transients: usize,
    generate: &H,
) -> (inputs: Vec<PopulationInput>)
    requires
        forall|r: SmallRng, one: G, n: usize| call_requires(*generate, (r, &one, n)),
    ensures
        are_drawn(generate, rng, built@, n_transients, inputs@),
{
    let mut inputs: Vec<PopulationInput> = Vec::new();
    let mut current = rng;
    let ghost mut generators: Seq<SmallRng> = seq![rng];
    assert(built@.take(0) =~= Seq::empty());
    for i in 0..built.len()
        invariant
            forall|r: SmallRng, one: G, n: usize| call_requires(*generate, (r, &one, n)),
            generators.len() == i + 1,
            generators[0] == rng,
            generators.last() == current,
            are_draws(generate, built@.take(i as int), n_transients, generators, inputs@),
    {
        let ghost before = current;
        let ghost past = generators;
        let ghost drawn = inputs@;
        let (input, next) = generate(current, &built[i], n_transients);
        inputs.push(input);
        current = next;
        proof {
            generators = past.push(next);
            assert forall|j: int| 0 <= j < i + 1 implies call_ensures(
                *generate,
                (generators[j], &built@.take(i + 1)[j], n_transients),
                (#[trigger] inputs@[j], generators[j + 1]),
            ) by {
                if j < i {
                    assert(inputs@[j] == drawn[j]);
                    assert(built@.take(i + 1)[j] == built@.take(i as int)[j]);
                    assert(generators[j] == past[j]);
                    assert(generators[j + 1] == past[j + 1]);
                }
            }
        }
    }
    assert(built@.take(built@.len() as int) =~= built@);
    inputs
}

/// `inputs` are the populations of a run: one for each that was built, drawn from a generator with
/// the given seed.
pub open spec fn are_generated<
    G,
    Z,
    B: Fn(usize, PopulationKind) -> Result<G, Z>,
    H: Fn(SmallRng, &G, usize) -> (PopulationInput, SmallRng),
>(
    build: &B,
    generate: &H,
    objects: Seq<Vec<bool>>,
    seed: u64,
    n_transients: usize,
    inputs: Seq<PopulationInput>,
) -> bool {
    exists|rng: SmallRng, built: Seq<G>|
        are_built(build, objects, built) && built.len() == objects.len() && upcoming_words(rng)
            == seeded_words(seed, usize::BITS as int) && #[trigger] are_drawn(
            generate,
            rng,
            built,
            n_transients,
            inputs,
        )
}

impl PySimulationPipeline {
    /// A simulation with the given settings.
    pub fn new(
        model_names: Vec<String>,
        cuts: SelectionCuts,
        n_transients: usize,
        seed: u64,
        stack_windows_s: Option<Vec<Double>>,
        time_window_days: Double,
    ) -> (res: PySimulationPipeline)
        ensures
            res.model_names == model_names,
            res.cuts == cuts,
            res.n_transients == n_transients,
            res.seed == seed,
            res.stack_windows_s == stack_windows_s,
            res.time_window_days == time_window_days,
    {
        PySimulationPipeline {
            model_names,
            cuts,
            n_transients,
            seed,
            stack_windows_s,
            time_window_days,
        }
    }

    /// `settings` are those of a run.
    pub open spec fn are_settings<Y: Fn(Double) -> Double>(
        self,
        days: &Y,
        include_undetected: bool,
        settings: RunSettings,
    ) -> bool {
        &&& settings.cuts == self.cuts
        &&& settings.n_transients == self.n_transients
        &&& settings.time_window_days == self.time_window_days
        &&& are_windows_in_days(days, self.stack_windows_s, settings.windows_days)
        &&& settings.include_undetected == include_undetected
    }

    /// The settings of a run, its time windows turned from seconds to days.
    fn settings<Y: Fn(Double) -> Double>(&self, days: &Y, include_undetected: bool) -> (settings:
        RunSettings)
        requires
            forall|s: Double| call_requires(*days, (s,)),
        ensures
            self.are_settings(days, include_undetected, settings),
    {
        let windows_days = match &self.stack_windows_s {
            None => None,
            Some(seconds) => {
                let mut windows: Vec<Double> = Vec::new();
                for i in 0..seconds.len()
                    invariant
                        forall|s: Double| call_requires(*days, (s,)),
                        windows@.len() == i,
                        forall|j: int|
                            0 <= j < i ==> call_ensures(
                                *days,
                                (seconds@[j],),
                                #[trigger] windows@[j],
                            ),
                {
                    windows.push(days(seconds[i]));
                }
                Some(windows)
            },
        };
        RunSettings {
            cuts: self.cuts,
            n_transients: self.n_transients,
            time_window_days: self.time_window_days,
            windows_days,
            include_undetected,
        }
    }

    /// Runs the simulation over a survey of the given duration.
    ///
    /// The populations are built from their objects, `objects` saying which kinds each fits, and
    /// drawn in order from one generator with the seed of the simulation. Each one with a model is
    /// then matched to exposures, evaluated, stacked if windows are set, judged, and entered in the
    /// result.
    pub fn run<
        G,
        Z,
        B: Fn(usize, PopulationKind) -> Result<G, Z>,
        H: Fn(SmallRng, &G, usize) -> (PopulationInput, SmallRng),
        Y: Fn(Double) -> Double,
        Q: Fn(&PopulationInput, Double) -> Vec<Vec<usize>>,
        E: Fn(&PopulationInput, usize, &Vec<Sighting>) -> Vec<Option<LightcurveEvaluation>>,
        F: Fn(usize) -> SurveyObservation,
        L: Fn(Double, Double) -> Double,
        C: Fn(&BinSummary) -> StackedValues,
        D: Fn(&PopulationInput, &Vec<Measured>) -> Vec<Verdict>,
        R: Fn(&PopulationInput, usize, &Vec<bool>, usize, Double) -> Rates,
        K: Fn(Double, Double) -> (u64, u64),
        M: Fn(Double, Double) -> (Double, Double),
        P: Fn(Double, Double, u64, u64) -> Double,
    >(
        &self,
        include_undetected: bool,
        survey_duration_years: Double,
        objects: &Vec<Vec<bool>>,
        build: &B,
        generate: &H,
        days: &Y,
        query: &Q,
        evaluate: &E,
        fetch: &F,
        elapsed: &L,
        average: &C,
        detect: &D,
        integrate: &R,
        seeds: &K,
        measure: &M,
        perturb: &P,
    ) -> (res: Result<PySimulationResult, RunError<Z>>)
        requires
            forall|i: usize, kind: PopulationKind| call_requires(*build, (i, kind)),
            forall|rng: SmallRng, one: G, n: usize| call_requires(*generate, (rng, &one, n)),
            forall|rng: SmallRng, one: G, n: usize, input: PopulationInput, next: SmallRng|
                #[trigger]
                call_ensures(*generate, (rng, &one, n), (input, next)) ==> input.wf(),
            forall|s: Double| call_requires(*days, (s,)),
            is_query(query),
            is_ready(evaluate, fetch, elapsed, average, detect, integrate, seeds, measure, perturb),
        ensures
            match res {
                Ok(shown) => exists|
                    inputs: Vec<PopulationInput>,
                    settings: RunSettings,
                    result: PipelineResult,
                |
                    are_generated(
                        build,
                        generate,
                        objects@,
                        self.seed,
                        self.n_transients,
                        inputs@,
                    ) && self.are_settings(days, include_undetected, settings) && result.wf()
                        && #[trigger] is_outcome(
                        query,
                        evaluate,
                        fetch,
                        elapsed,
                        average,
                        detect,
                        integrate,
                        seeds,
                        measure,
                        perturb,
                        self.model_names@,
                        settings,
                        inputs@,
                        result,
                    ) && is_shown_result(result, survey_duration_years, shown),
                Err(RunError::Build(error)) => is_build_failure(build, objects@, error),
                Err(RunError::Uncountable) => exists|inputs: Vec<PopulationInput>|
                    #[trigger] are_generated(
                        build,
                        generate,
                        objects@,
                        self.seed,
                        self.n_transients,
                        inputs@,
                    ) && !are_countable(self.model_names@, self.n_transients, inputs@),
                Err(RunError::Incomparable) => exists|
                    inputs: Vec<PopulationInput>,
                    settings: RunSettings,
                |
                    are_generated(
                        build,
                        generate,
                        objects@,
                        self.seed,
                        self.n_transients,
                        inputs@,
                    ) && self.are_settings(days, include_undetected, settings)
                        && #[trigger] is_run_refused(
                        query,
                        evaluate,
                        fetch,
                        elapsed,
                        average,
                        self.model_names@,
                        settings,
                        inputs@,
                    ),
            },
    {
        match build_populations(objects, build) {
            Err(error) => Err(RunError::Build(error)),
            Ok(built) => {
                let rng = seeded_generator(self.seed);
                let inputs = draw_populations(rng, &built, self.n_transients, generate);
                proof {
                    assert(are_generated(
                        build,
                        generate,
                        objects@,
                        self.seed,
                        self.n_transients,
                        inputs@,
                    ));
                    let generators = choose|generators: Seq<SmallRng>| #[trigger]
                        are_draws(generate, built@, self.n_transients, generators, inputs@)
                            && generators[0] == rng;
                    assert forall|i: int| 0 <= i < inputs@.len() implies (
                    #[trigger] inputs@[i]).wf() by {
                        assert(call_ensures(
                            *generate,
                            (generators[i], &built@[i], self.n_transients),
                            (inputs@[i], generators[i + 1]),
                        ));
                    }
                }
                if !is_countable(&self.model_names, self.n_transients, &inputs) {
                    return Err(RunError::Uncountable);
                }
                let settings = self.settings(days, include_undetected);
                match run_pipeline(
                    &inputs,
                    &self.model_names,
                    &settings,
                    query,
                    evaluate,
                    fetch,
                    elapsed,
                    average,
                    detect,
                    integrate,
                    seeds,
                    measure,
                    perturb,
                ) {
                    None => Err(RunError::Incomparable),
                    Some(result) => Ok(
                        PySimulationResult::from_pipeline(result, survey_duration_years),
                    ),
                }
            },
        }
    }
}

} // verus!
