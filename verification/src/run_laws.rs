//! Laws over two simulation runs.
use rand::rngs::SmallRng;
use vstd::prelude::*;

use crate::dispatch::{
    are_built, is_built, is_first, is_kind_of, is_model_of, kind_at, lacks_model, PopulationKind,
    POPULATION_KINDS,
};
use crate::double::Double;
use crate::matching::{Sighting, Verdict};
use crate::measurement::{is_measurement, Measured};
use crate::noise::{seeded_words, upcoming_words};
use crate::photometry_laws::{is_fixed_measurement, is_fixed_noise, is_fixed_seed};
use crate::pipeline::{
    are_rates, are_sources, is_entered, is_judged, is_recorded, law_source_types, PipelineResult,
    PopulationRun, RateView, Rates, RunSettings, TypeExtras,
};
use crate::run_repeats::{
    are_alike, is_fixed_fetch, is_fixed_query, is_fixed_rate, is_fixed_verdict,
    law_measurement_repeats, law_rates_repeat, law_sources_repeat, law_verdicts_repeat,
    window_list,
};
use crate::simulation::{are_drawn, are_draws, are_generated, is_outcome, is_step, is_trace};
use crate::simulation_laws::law_undetected_on_request;
use crate::sources::{source_views, InputView, PopulationInput, SourceView};
use crate::stacking::{BinSummary, StackedValues};
use crate::stacking_laws::is_fixed_time;
use crate::stacking_repeats::is_fixed_average;
use crate::survey::{LightcurveEvaluation, SurveyObservation};

verus! {

/// What a run calls answers by its arguments alone.
pub open spec fn are_fixed<
    Q: Fn(&PopulationInput, Double) -> Vec<Vec<usize>>,
    F: Fn(usize) -> SurveyObservation,
    L: Fn(Double, Double) -> Double,
    C: Fn(&BinSummary) -> StackedValues,
    D: Fn(&PopulationInput, &Vec<Measured>) -> Vec<Verdict>,
    R: Fn(&PopulationInput, usize, &Vec<bool>, usize, Double) -> Rates,
    K: Fn(Double, Double) -> (u64, u64),
    M: Fn(Double, Double) -> (Double, Double),
    P: Fn(Double, Double, u64, u64) -> Double,
>(
    query: &Q,
    fetch: &F,
    elapsed: &L,
    average: &C,
    detect: &D,
    integrate: &R,
    seeds: &K,
    measure: &M,
    perturb: &P,
) -> bool {
    &&& is_fixed_query(query)
    &&& is_fixed_fetch(fetch)
    &&& is_fixed_time(elapsed)
    &&& is_fixed_average(average)
    &&& is_fixed_verdict(detect)
    &&& is_fixed_rate(integrate)
    &&& is_fixed_seed(seeds)
    &&& is_fixed_measurement(measure)
    &&& is_fixed_noise(perturb)
}

/// The views of populations.
pub open spec fn input_views(inputs: Seq<PopulationInput>) -> Seq<InputView> {
    Seq::new(inputs.len(), |i: int| inputs[i]@)
}

/// Two runs measure and judge the same way: they stack at the same windows, if at any, and differ
/// at most in whether undetected sources are asked for.
pub open spec fn same_course(a: RunSettings, b: RunSettings) -> bool {
    &&& a.cuts == b.cuts
    &&& a.n_transients == b.n_transients
    &&& a.time_window_days == b.time_window_days
    &&& window_list(a.windows_days) == window_list(b.windows_days)
}

/// The rate and the counts of each population.
pub open spec fn entries(result: PipelineResult) -> Seq<(RateView, TypeExtras)> {
    Seq::new(
        result.rate_summaries@.len(),
        |i: int| (result.rate_summaries@[i]@, result.per_type_extras@[i]),
    )
}

/// What a population adds to a result.
pub struct Addition {
    pub entry: (RateView, TypeExtras),
    pub detected: Seq<SourceView>,
    pub undetected: Seq<SourceView>,
}

/// The undetected sources that are added, if they are asked for.
pub open spec fn asked_for(include_undetected: bool, added: Addition) -> Seq<SourceView> {
    if include_undetected {
        added.undetected
    } else {
        Seq::empty()
    }
}

/// All sources are of one type.
pub open spec fn are_of_type(sources: Seq<SourceView>, kind: Seq<char>) -> bool {
    forall|j: int| 0 <= j < sources.len() ==> (#[trigger] sources[j]).transient_type == kind
}

/// `after` is `before` with an addition, all of one type.
pub open spec fn is_added(
    before: PipelineResult,
    after: PipelineResult,
    include_undetected: bool,
    kind: Seq<char>,
    added: Addition,
) -> bool {
    let more = asked_for(include_undetected, added);
    &&& added.entry.0.transient_type == kind
    &&& are_of_type(added.detected, kind)
    &&& are_of_type(more, kind)
    &&& after.rate_summaries@.len() == after.per_type_extras@.len()
    &&& after.n_simulated == before.n_simulated + added.entry.1.n_simulated
    &&& after.n_detected == before.n_detected + added.entry.1.n_detected
    &&& after.n_undetected == before.n_undetected + more.len()
    &&& entries(after) == entries(before).push(added.entry)
    &&& source_views(after.detected_sources@) == source_views(before.detected_sources@)
        + added.detected
    &&& source_views(after.undetected_sources@) == source_views(before.undetected_sources@) + more
}

/// What a recorded population adds.
proof fn lemma_recorded_addition<
    K: Fn(Double, Double) -> (u64, u64),
    M: Fn(Double, Double) -> (Double, Double),
    P: Fn(Double, Double, u64, u64) -> Double,
>(
    seeds: &K,
    measure: &M,
    perturb: &P,
    run: PopulationRun,
    rates: Rates,
    include_undetected: bool,
    before: PipelineResult,
    after: PipelineResult,
) -> (added: Addition)
    requires
        before.rate_summaries@.len() == before.per_type_extras@.len(),
        run.wf(),
        is_recorded(seeds, measure, perturb, run, rates, include_undetected, before, after),
    ensures
        is_added(before, after, include_undetected, run.input.transient_type@, added),
        added.entry == (after.rate_summaries@.last()@, after.per_type_extras@.last()),
        added.entry.1.n_simulated == run.n_transients,
        are_sources(seeds, measure, perturb, run, true, added.detected),
        include_undetected ==> are_sources(
            seeds,
            measure,
            perturb,
            run,
            false,
            added.undetected,
        ),
{
    let detected = choose|added: Seq<SourceView>| #[trigger]
        are_sources(seeds, measure, perturb, run, true, added) && source_views(
            after.detected_sources@,
        ) == source_views(before.detected_sources@) + added;
    law_source_types(seeds, measure, perturb, run, true, detected);
    let undetected = if include_undetected {
        choose|added: Seq<SourceView>| #[trigger]
            are_sources(seeds, measure, perturb, run, false, added) && source_views(
                after.undetected_sources@,
            ) == source_views(before.undetected_sources@) + added
    } else {
        Seq::empty()
    };
    if include_undetected {
        law_source_types(seeds, measure, perturb, run, false, undetected);
    }
    assert(source_views(after.undetected_sources@).len() == after.undetected_sources@.len());
    assert(source_views(before.undetected_sources@).len() == before.undetected_sources@.len());
    let added = Addition {
        entry: (after.rate_summaries@.last()@, after.per_type_extras@.last()),
        detected,
        undetected,
    };
    assert(entries(after) =~= entries(before).push(added.entry)) by {
        assert forall|i: int| 0 <= i < before.rate_summaries@.len() implies entries(after)[i]
            == entries(before)[i] by {
            assert(after.rate_summaries@.drop_last()[i] == before.rate_summaries@[i]);
        }
    }
    assert(source_views(after.undetected_sources@) =~= source_views(before.undetected_sources@)
        + asked_for(include_undetected, added));
    added
}

/// The same population adds the same to any two results.
proof fn lemma_common_addition<
    Q: Fn(&PopulationInput, Double) -> Vec<Vec<usize>>,
    E: Fn(&PopulationInput, usize, &Vec<Sighting>) -> Vec<Option<LightcurveEvaluation>>,
    T: Fn(&PopulationInput, usize, &Vec<Sighting>) -> Vec<Option<LightcurveEvaluation>>,
    F: Fn(usize) -> SurveyObservation,
    L: Fn(Double, Double) -> Double,
    C: Fn(&BinSummary) -> StackedValues,
    D: Fn(&PopulationInput, &Vec<Measured>) -> Vec<Verdict>,
    R: Fn(&PopulationInput, usize, &Vec<bool>, usize, Double) -> Rates,
    K: Fn(Double, Double) -> (u64, u64),
    M: Fn(Double, Double) -> (Double, Double),
    P: Fn(Double, Double, u64, u64) -> Double,
>(
    query: &Q,
    evaluate: (&E, &T),
    fetch: &F,
    elapsed: &L,
    average: &C,
    detect: &D,
    integrate: &R,
    seeds: &K,
    measure: &M,
    perturb: &P,
    names: (Seq<String>, Seq<String>),
    settings: (RunSettings, RunSettings),
    input: (&PopulationInput, &PopulationInput),
    model: (usize, usize),
    queries: (Vec<Vec<usize>>, Vec<Vec<usize>>),
    before: (PipelineResult, PipelineResult),
    after: (PipelineResult, PipelineResult),
) -> (added: Addition)
    requires
        are_alike(evaluate, names),
        are_fixed(query, fetch, elapsed, average, detect, integrate, seeds, measure, perturb),
        same_course(settings.0, settings.1),
        input.0@ == input.1@,
        is_model_of(names.0, input.0.transient_type@, model.0),
        is_model_of(names.1, input.1.transient_type@, model.1),
        call_ensures(*query, (input.0, settings.0.time_window_days), queries.0),
        call_ensures(*query, (input.1, settings.1.time_window_days), queries.1),
        before.0.rate_summaries@.len() == before.0.per_type_extras@.len(),
        before.1.rate_summaries@.len() == before.1.per_type_extras@.len(),
        is_entered(
            evaluate.0,
            fetch,
            elapsed,
            average,
            detect,
            integrate,
            seeds,
            measure,
            perturb,
            input.0,
            model.0,
            queries.0@,
            settings.0,
            before.0,
            after.0,
        ),
        is_entered(
            evaluate.1,
            fetch,
            elapsed,
            average,
            detect,
            integrate,
            seeds,
            measure,
            perturb,
            input.1,
            model.1,
            queries.1@,
            settings.1,
            before.1,
            after.1,
        ),
    ensures
        is_added(
            before.0,
            after.0,
            settings.0.include_undetected,
            input.0.transient_type@,
            added,
        ),
        is_added(
            before.1,
            after.1,
            settings.1.include_undetected,
            input.0.transient_type@,
            added,
        ),
        added.entry.1.n_simulated == settings.0.n_transients,
{
    assert(input.0@.transient_type == input.0.transient_type@);
    assert(input.1@.transient_type == input.1.transient_type@);
    let (a, s) = choose|run: PopulationRun, rates: Rates|
        run.wf() && is_measurement(
            evaluate.0,
            fetch,
            elapsed,
            average,
            input.0,
            model.0,
            queries.0@,
            settings.0.windows_days,
            run.measured@,
        ) && is_judged(detect, settings.0, input.0, run) && are_rates(integrate, run, rates)
            && #[trigger] is_recorded(
            seeds,
            measure,
            perturb,
            run,
            rates,
            settings.0.include_undetected,
            before.0,
            after.0,
        );
    let (b, t) = choose|run: PopulationRun, rates: Rates|
        run.wf() && is_measurement(
            evaluate.1,
            fetch,
            elapsed,
            average,
            input.1,
            model.1,
            queries.1@,
            settings.1.windows_days,
            run.measured@,
        ) && is_judged(detect, settings.1, input.1, run) && are_rates(integrate, run, rates)
            && #[trigger] is_recorded(
            seeds,
            measure,
            perturb,
            run,
            rates,
            settings.1.include_undetected,
            before.1,
            after.1,
        );
    law_measurement_repeats(
        evaluate,
        names,
        fetch,
        elapsed,
        average,
        input,
        model,
        (queries.0@, queries.1@),
        (settings.0.windows_days, settings.1.windows_days),
        a.measured@,
        b.measured@,
    );
    law_verdicts_repeat(detect, settings, input, a, b);
    let (x, y) = (after.0.rate_summaries@.last(), after.1.rate_summaries@.last());
    law_rates_repeat(integrate, a, b, (s, t), (x.z_max, y.z_max));
    assert(x@ == y@) by {
        assert(a.input@.volumetric_rate == a.input.volumetric_rate);
        assert(b.input@.volumetric_rate == b.input.volumetric_rate);
    }
    let p = lemma_recorded_addition(
        seeds,
        measure,
        perturb,
        a,
        s,
        settings.0.include_undetected,
        before.0,
        after.0,
    );
    let q = lemma_recorded_addition(
        seeds,
        measure,
        perturb,
        b,
        t,
        settings.1.include_undetected,
        before.1,
        after.1,
    );
    law_sources_repeat(seeds, measure, perturb, a, b, true, p.detected, q.detected);
    if settings.0.include_undetected && settings.1.include_undetected {
        law_sources_repeat(seeds, measure, perturb, a, b, false, p.undetected, q.undetected);
    }
    if settings.0.include_undetected {
        p
    } else {
        q
    }
}

/// Two results agree on everything but undetected sources, and on these too if `undetected` is set.
pub open spec fn agree(a: PipelineResult, b: PipelineResult, undetected: bool) -> bool {
    &&& a.n_simulated == b.n_simulated
    &&& a.n_detected == b.n_detected
    &&& a.rate_summaries@.len() == a.per_type_extras@.len()
    &&& b.rate_summaries@.len() == b.per_type_extras@.len()
    &&& entries(a) == entries(b)
    &&& source_views(a.detected_sources@) == source_views(b.detected_sources@)
    &&& undetected ==> a.n_undetected == b.n_undetected && source_views(a.undetected_sources@)
        == source_views(b.undetected_sources@)
}

proof fn lemma_states_agree<
    Q: Fn(&PopulationInput, Double) -> Vec<Vec<usize>>,
    E: Fn(&PopulationInput, usize, &Vec<Sighting>) -> Vec<Option<LightcurveEvaluation>>,
    T: Fn(&PopulationInput, usize, &Vec<Sighting>) -> Vec<Option<LightcurveEvaluation>>,
    F: Fn(usize) -> SurveyObservation,
    L: Fn(Double, Double) -> Double,
    C: Fn(&BinSummary) -> StackedValues,
    D: Fn(&PopulationInput, &Vec<Measured>) -> Vec<Verdict>,
    R: Fn(&PopulationInput, usize, &Vec<bool>, usize, Double) -> Rates,
    K: Fn(Double, Double) -> (u64, u64),
    M: Fn(Double, Double) -> (Double, Double),
    P: Fn(Double, Double, u64, u64) -> Double,
>(
    query: &Q,
    evaluate: (&E, &T),
    fetch: &F,
    elapsed: &L,
    average: &C,
    detect: &D,
    integrate: &R,
    seeds: &K,
    measure: &M,
    perturb: &P,
    names: (Seq<String>, Seq<String>),
    settings: (RunSettings, RunSettings),
    inputs: (Seq<PopulationInput>, Seq<PopulationInput>),
    states: (Seq<PipelineResult>, Seq<PipelineResult>),
    m: int,
)
    requires
        are_alike(evaluate, names),
        are_fixed(query, fetch, elapsed, average, detect, integrate, seeds, measure, perturb),
        same_course(settings.0, settings.1),
        input_views(inputs.0) == input_views(inputs.1),
        forall|kind: Seq<char>| #[trigger]
            lacks_model(names.0, kind) <==> lacks_model(names.1, kind),
        is_trace(
            query,
            evaluate.0,
            fetch,
            elapsed,
            average,
            detect,
            integrate,
            seeds,
            measure,
            perturb,
            names.0,
            settings.0,
            inputs.0,
            states.0,
        ),
        is_trace(
            query,
            evaluate.1,
            fetch,
            elapsed,
            average,
            detect,
            integrate,
            seeds,
            measure,
            perturb,
            names.1,
            settings.1,
            inputs.1,
            states.1,
        ),
        0 <= m < states.0.len(),
        m < states.1.len(),
    ensures
        agree(
            states.0[m],
            states.1[m],
            settings.0.include_undetected == settings.1.include_undetected,
        ),
    decreases m,
{
    if m == 0 {
        assert(entries(states.0[0]) =~= entries(states.1[0]));
        assert(source_views(states.0[0].detected_sources@) =~= source_views(
            states.1[0].detected_sources@,
        ));
        assert(source_views(states.0[0].undetected_sources@) =~= source_views(
            states.1[0].undetected_sources@,
        ));
    } else {
        let at = m - 1;
        lemma_states_agree(
            query,
            evaluate,
            fetch,
            elapsed,
            average,
            detect,
            integrate,
            seeds,
            measure,
            perturb,
            names,
            settings,
            inputs,
            states,
            at,
        );
        assert(input_views(inputs.0).len() == inputs.0.len());
        assert(input_views(inputs.1).len() == inputs.1.len());
        assert(input_views(inputs.0)[at] == input_views(inputs.1)[at]);
        assert(inputs.0[at]@ == inputs.1[at]@);
        assert(inputs.0[at]@.transient_type == inputs.0[at].transient_type@);
        assert(inputs.1[at]@.transient_type == inputs.1[at].transient_type@);
        assert(is_step(
            query,
            evaluate.0,
            fetch,
            elapsed,
            average,
            detect,
            integrate,
            seeds,
            measure,
            perturb,
            names.0,
            settings.0,
            &inputs.0[at],
            states.0[at],
            states.0[at + 1],
        ));
        assert(is_step(
            query,
            evaluate.1,
            fetch,
            elapsed,
            average,
            detect,
            integrate,
            seeds,
            measure,
            perturb,
            names.1,
            settings.1,
            &inputs.1[at],
            states.1[at],
            states.1[at + 1],
        ));
        if !lacks_model(names.0, inputs.0[at].transient_type@) {
            assert(!lacks_model(names.1, inputs.1[at].transient_type@));
            let (m, q) = choose|model: usize, queries: Vec<Vec<usize>>|
                is_model_of(names.0, inputs.0[at].transient_type@, model) && call_ensures(
                    *query,
                    (&inputs.0[at], settings.0.time_window_days),
                    queries,
                ) && #[trigger] is_entered(
                    evaluate.0,
                    fetch,
                    elapsed,
                    average,
                    detect,
                    integrate,
                    seeds,
                    measure,
                    perturb,
                    &inputs.0[at],
                    model,
                    queries@,
                    settings.0,
                    states.0[at],
                    states.0[at + 1],
                );
            let (n, r) = choose|model: usize, queries: Vec<Vec<usize>>|
                is_model_of(names.1, inputs.1[at].transient_type@, model) && call_ensures(
                    *query,
                    (&inputs.1[at], settings.1.time_window_days),
                    queries,
                ) && #[trigger] is_entered(
                    evaluate.1,
                    fetch,
                    elapsed,
                    average,
                    detect,
                    integrate,
                    seeds,
                    measure,
                    perturb,
                    &inputs.1[at],
                    model,
                    queries@,
                    settings.1,
                    states.1[at],
                    states.1[at + 1],
                );
            let added = lemma_common_addition(
                query,
                evaluate,
                fetch,
                elapsed,
                average,
                detect,
                integrate,
                seeds,
                measure,
                perturb,
                names,
                settings,
                (&inputs.0[at], &inputs.1[at]),
                (m, n),
                (q, r),
                (states.0[at], states.1[at]),
                (states.0[at + 1], states.1[at + 1]),
            );
        }
    }
}

/// Two runs over the same populations that measure and judge the same way agree on everything but
/// undetected sources, and on these too if both ask for them or neither does.
pub proof fn law_runs_agree<
    Q: Fn(&PopulationInput, Double) -> Vec<Vec<usize>>,
    E: Fn(&PopulationInput, usize, &Vec<Sighting>) -> Vec<Option<LightcurveEvaluation>>,
    T: Fn(&PopulationInput, usize, &Vec<Sighting>) -> Vec<Option<LightcurveEvaluation>>,
    F: Fn(usize) -> SurveyObservation,
    L: Fn(Double, Double) -> Double,
    C: Fn(&BinSummary) -> StackedValues,
    D: Fn(&PopulationInput, &Vec<Measured>) -> Vec<Verdict>,
    R: Fn(&PopulationInput, usize, &Vec<bool>, usize, Double) -> Rates,
    K: Fn(Double, Double) -> (u64, u64),
    M: Fn(Double, Double) -> (Double, Double),
    P: Fn(Double, Double, u64, u64) -> Double,
>(
    query: &Q,
    evaluate: (&E, &T),
    fetch: &F,
    elapsed: &L,
    average: &C,
    detect: &D,
    integrate: &R,
    seeds: &K,
    measure: &M,
    perturb: &P,
    names: (Seq<String>, Seq<String>),
    settings: (RunSettings, RunSettings),
    inputs: (Seq<PopulationInput>, Seq<PopulationInput>),
    results: (PipelineResult, PipelineResult),
)
    requires
        are_alike(evaluate, names),
        are_fixed(query, fetch, elapsed, average, detect, integrate, seeds, measure, perturb),
        same_course(settings.0, settings.1),
        input_views(inputs.0) == input_views(inputs.1),
        forall|kind: Seq<char>| #[trigger]
            lacks_model(names.0, kind) <==> lacks_model(names.1, kind),
        is_outcome(
            query,
            evaluate.0,
            fetch,
            elapsed,
            average,
            detect,
            integrate,
            seeds,
            measure,
            perturb,
            names.0,
            settings.0,
            inputs.0,
            results.0,
        ),
        is_outcome(
            query,
            evaluate.1,
            fetch,
            elapsed,
            average,
            detect,
            integrate,
            seeds,
            measure,
            perturb,
            names.1,
            settings.1,
            inputs.1,
            results.1,
        ),
    ensures
        agree(
            results.0,
            results.1,
            settings.0.include_undetected == settings.1.include_undetected,
        ),
{
    let s0 = choose|states: Seq<PipelineResult>|
        states.len() == inputs.0.len() + 1 && states.last() == results.0 && #[trigger] is_trace(
            query,
            evaluate.0,
            fetch,
            elapsed,
            average,
            detect,
            integrate,
            seeds,
            measure,
            perturb,
            names.0,
            settings.0,
            inputs.0,
            states,
        );
    let s1 = choose|states: Seq<PipelineResult>|
        states.len() == inputs.1.len() + 1 && states.last() == results.1 && #[trigger] is_trace(
            query,
            evaluate.1,
            fetch,
            elapsed,
            average,
            detect,
            integrate,
            seeds,
            measure,
            perturb,
            names.1,
            settings.1,
            inputs.1,
            states,
        );
    let states = (s0, s1);
    assert(input_views(inputs.0).len() == inputs.0.len());
    assert(input_views(inputs.1).len() == inputs.1.len());
    lemma_states_agree(
        query,
        evaluate,
        fetch,
        elapsed,
        average,
        detect,
        integrate,
        seeds,
        measure,
        perturb,
        names,
        settings,
        inputs,
        states,
        inputs.0.len() as int,
    );
}

/// Asking for undetected sources changes nothing but these and their number.
pub proof fn law_undetected_changes_nothing_else<
    Q: Fn(&PopulationInput, Double) -> Vec<Vec<usize>>,
    E: Fn(&PopulationInput, usize, &Vec<Sighting>) -> Vec<Option<LightcurveEvaluation>>,
    F: Fn(usize) -> SurveyObservation,
    L: Fn(Double, Double) -> Double,
    C: Fn(&BinSummary) -> StackedValues,
    D: Fn(&PopulationInput, &Vec<Measured>) -> Vec<Verdict>,
    R: Fn(&PopulationInput, usize, &Vec<bool>, usize, Double) -> Rates,
    K: Fn(Double, Double) -> (u64, u64),
    M: Fn(Double, Double) -> (Double, Double),
    P: Fn(Double, Double, u64, u64) -> Double,
>(
    query: &Q,
    evaluate: &E,
    fetch: &F,
    elapsed: &L,
    average: &C,
    detect: &D,
    integrate: &R,
    seeds: &K,
    measure: &M,
    perturb: &P,
    names: Seq<String>,
    settings: (RunSettings, RunSettings),
    inputs: (Seq<PopulationInput>, Seq<PopulationInput>),
    results: (PipelineResult, PipelineResult),
)
    requires
        are_alike((evaluate, evaluate), (names, names)),
        are_fixed(query, fetch, elapsed, average, detect, integrate, seeds, measure, perturb),
        input_views(inputs.0) == input_views(inputs.1),
        same_course(settings.0, settings.1),
        !settings.0.include_undetected,
        settings.1.include_undetected,
        results.1.wf(),
        is_outcome(
            query,
            evaluate,
            fetch,
            elapsed,
            average,
            detect,
            integrate,
            seeds,
            measure,
            perturb,
            names,
            settings.0,
            inputs.0,
            results.0,
        ),
        is_outcome(
            query,
            evaluate,
            fetch,
            elapsed,
            average,
            detect,
            integrate,
            seeds,
            measure,
            perturb,
            names,
            settings.1,
            inputs.1,
            results.1,
        ),
    ensures
        agree(results.0, results.1, false),
        results.0.n_undetected == 0,
        results.0.undetected_sources@.len() == 0,
        results.1.n_undetected == results.1.undetected_sources@.len(),
{
    law_runs_agree(
        query,
        (evaluate, evaluate),
        fetch,
        elapsed,
        average,
        detect,
        integrate,
        seeds,
        measure,
        perturb,
        (names, names),
        settings,
        inputs,
        results,
    );
    law_undetected_on_request(
        query,
        evaluate,
        fetch,
        elapsed,
        average,
        detect,
        integrate,
        seeds,
        measure,
        perturb,
        names,
        settings.0,
        inputs.0,
        results.0,
    );
}

/// A run that stacks at an empty list of windows is a run that does not stack.
pub proof fn law_empty_windows<
    Q: Fn(&PopulationInput, Double) -> Vec<Vec<usize>>,
    E: Fn(&PopulationInput, usize, &Vec<Sighting>) -> Vec<Option<LightcurveEvaluation>>,
    F: Fn(usize) -> SurveyObservation,
    L: Fn(Double, Double) -> Double,
    C: Fn(&BinSummary) -> StackedValues,
    D: Fn(&PopulationInput, &Vec<Measured>) -> Vec<Verdict>,
    R: Fn(&PopulationInput, usize, &Vec<bool>, usize, Double) -> Rates,
    K: Fn(Double, Double) -> (u64, u64),
    M: Fn(Double, Double) -> (Double, Double),
    P: Fn(Double, Double, u64, u64) -> Double,
>(
    query: &Q,
    evaluate: &E,
    fetch: &F,
    elapsed: &L,
    average: &C,
    detect: &D,
    integrate: &R,
    seeds: &K,
    measure: &M,
    perturb: &P,
    names: Seq<String>,
    settings: (RunSettings, RunSettings),
    inputs: (Seq<PopulationInput>, Seq<PopulationInput>),
    results: (PipelineResult, PipelineResult),
)
    requires
        are_alike((evaluate, evaluate), (names, names)),
        are_fixed(query, fetch, elapsed, average, detect, integrate, seeds, measure, perturb),
        input_views(inputs.0) == input_views(inputs.1),
        settings.0.cuts == settings.1.cuts,
        settings.0.n_transients == settings.1.n_transients,
        settings.0.time_window_days == settings.1.time_window_days,
        settings.0.include_undetected == settings.1.include_undetected,
        settings.0.windows_days is None,
        settings.1.windows_days matches Some(list) && list@.len() == 0,
        is_outcome(
            query,
            evaluate,
            fetch,
            elapsed,
            average,
            detect,
            integrate,
            seeds,
            measure,
            perturb,
            names,
            settings.0,
            inputs.0,
            results.0,
        ),
        is_outcome(
            query,
            evaluate,
            fetch,
            elapsed,
            average,
            detect,
            integrate,
            seeds,
            measure,
            perturb,
            names,
            settings.1,
            inputs.1,
            results.1,
        ),
    ensures
        agree(results.0, results.1, true),
{
    assert(window_list(settings.1.windows_days) =~= Seq::empty());
    law_runs_agree(
        query,
        (evaluate, evaluate),
        fetch,
        elapsed,
        average,
        detect,
        integrate,
        seeds,
        measure,
        perturb,
        (names, names),
        settings,
        inputs,
        results,
    );
}

/// Entries of another type.
pub open spec fn other_entries(kind: Seq<char>) -> spec_fn((RateView, TypeExtras)) -> bool {
    |entry: (RateView, TypeExtras)| entry.0.transient_type != kind
}

/// Sources of another type.
pub open spec fn other_sources(kind: Seq<char>) -> spec_fn(SourceView) -> bool {
    |source: SourceView| source.transient_type != kind
}

/// How many of the first `n` populations are of a type.
pub open spec fn of_type(inputs: Seq<PopulationInput>, kind: Seq<char>, n: int) -> int
    decreases n,
{
    if n <= 0 {
        0
    } else {
        of_type(inputs, kind, n - 1) + if inputs[n - 1].transient_type@ == kind {
            1int
        } else {
            0int
        }
    }
}

/// `rest` is `all` with the entries and sources of a type taken out.
pub open spec fn is_without(
    all: PipelineResult,
    rest: PipelineResult,
    kind: Seq<char>,
    n_transients: usize,
    populations: int,
) -> bool {
    &&& all.rate_summaries@.len() == all.per_type_extras@.len()
    &&& rest.rate_summaries@.len() == rest.per_type_extras@.len()
    &&& rest.n_simulated == all.n_simulated - n_transients * populations
    &&& entries(rest) == entries(all).filter(other_entries(kind))
    &&& source_views(rest.detected_sources@) == source_views(all.detected_sources@).filter(
        other_sources(kind),
    )
    &&& source_views(rest.undetected_sources@) == source_views(all.undetected_sources@).filter(
        other_sources(kind),
    )
}

/// Of sources of one type, all are of another type than `kind`, or none is.
proof fn lemma_filter_type(sources: Seq<SourceView>, own: Seq<char>, kind: Seq<char>)
    requires
        are_of_type(sources, own),
    ensures
        own == kind ==> sources.filter(other_sources(kind)) == Seq::<SourceView>::empty(),
        own != kind ==> sources.filter(other_sources(kind)) == sources,
    decreases sources.len(),
{
    reveal(Seq::filter);
    if sources.len() > 0 {
        let rest = sources.drop_last();
        assert forall|j: int| 0 <= j < rest.len() implies (#[trigger] rest[j]).transient_type
            == own by {
            assert(rest[j] == sources[j]);
        }
        lemma_filter_type(rest, own, kind);
        assert(sources[sources.len() - 1].transient_type == own);
        assert(sources =~= rest.push(sources.last()));
    }
}

/// An addition of one type, seen without the entries and sources of `kind`.
proof fn lemma_added_without(
    before: PipelineResult,
    after: PipelineResult,
    include_undetected: bool,
    own: Seq<char>,
    added: Addition,
    kind: Seq<char>,
)
    requires
        is_added(before, after, include_undetected, own, added),
    ensures
        entries(after).filter(other_entries(kind)) == if own == kind {
            entries(before).filter(other_entries(kind))
        } else {
            entries(before).filter(other_entries(kind)).push(added.entry)
        },
        source_views(after.detected_sources@).filter(other_sources(kind)) == source_views(
            before.detected_sources@,
        ).filter(other_sources(kind)) + if own == kind {
            Seq::empty()
        } else {
            added.detected
        },
        source_views(after.undetected_sources@).filter(other_sources(kind)) == source_views(
            before.undetected_sources@,
        ).filter(other_sources(kind)) + if own == kind {
            Seq::empty()
        } else {
            asked_for(include_undetected, added)
        },
{
    let more = asked_for(include_undetected, added);
    lemma_filter_type(added.detected, own, kind);
    lemma_filter_type(more, own, kind);
    Seq::filter_distributes_over_add(
        source_views(before.detected_sources@),
        added.detected,
        other_sources(kind),
    );
    Seq::filter_distributes_over_add(
        source_views(before.undetected_sources@),
        more,
        other_sources(kind),
    );
    reveal(Seq::filter);
    assert(entries(before).push(added.entry).drop_last() =~= entries(before));
}

/// The second run lacks models of one type, which the first one has, and no others.
pub open spec fn lacks_only(names: (Seq<String>, Seq<String>), kind: Seq<char>) -> bool {
    &&& !lacks_model(names.0, kind)
    &&& lacks_model(names.1, kind)
    &&& forall|other: Seq<char>|
        other != kind ==> (#[trigger] lacks_model(names.0, other) <==> lacks_model(names.1, other))
}

proof fn lemma_states_without<
    Q: Fn(&PopulationInput, Double) -> Vec<Vec<usize>>,
    E: Fn(&PopulationInput, usize, &Vec<Sighting>) -> Vec<Option<LightcurveEvaluation>>,
    T: Fn(&PopulationInput, usize, &Vec<Sighting>) -> Vec<Option<LightcurveEvaluation>>,
    F: Fn(usize) -> SurveyObservation,
    L: Fn(Double, Double) -> Double,
    C: Fn(&BinSummary) -> StackedValues,
    D: Fn(&PopulationInput, &Vec<Measured>) -> Vec<Verdict>,
    R: Fn(&PopulationInput, usize, &Vec<bool>, usize, Double) -> Rates,
    K: Fn(Double, Double) -> (u64, u64),
    M: Fn(Double, Double) -> (Double, Double),
    P: Fn(Double, Double, u64, u64) -> Double,
>(
    query: &Q,
    evaluate: (&E, &T),
    fetch: &F,
    elapsed: &L,
    average: &C,
    detect: &D,
    integrate: &R,
    seeds: &K,
    measure: &M,
    perturb: &P,
    names: (Seq<String>, Seq<String>),
    settings: (RunSettings, RunSettings),
    inputs: (Seq<PopulationInput>, Seq<PopulationInput>),
    states: (Seq<PipelineResult>, Seq<PipelineResult>),
    kind: Seq<char>,
    m: int,
)
    requires
        are_alike((evaluate.0, evaluate.0), (names.0, names.0)),
        are_alike(evaluate, names),
        are_fixed(query, fetch, elapsed, average, detect, integrate, seeds, measure, perturb),
        same_course(settings.0, settings.1),
        input_views(inputs.0) == input_views(inputs.1),
        settings.0.include_undetected == settings.1.include_undetected,
        lacks_only(names, kind),
        is_trace(
            query,
            evaluate.0,
            fetch,
            elapsed,
            average,
            detect,
            integrate,
            seeds,
            measure,
            perturb,
            names.0,
            settings.0,
            inputs.0,
            states.0,
        ),
        is_trace(
            query,
            evaluate.1,
            fetch,
            elapsed,
            average,
            detect,
            integrate,
            seeds,
            measure,
            perturb,
            names.1,
            settings.1,
            inputs.1,
            states.1,
        ),
        0 <= m < states.0.len(),
        m < states.1.len(),
    ensures
        is_without(
            states.0[m],
            states.1[m],
            kind,
            settings.0.n_transients,
            of_type(inputs.0, kind, m),
        ),
    decreases m,
{
    if m == 0 {
        reveal(Seq::filter);
        let (a, b) = (states.0[0], states.1[0]);
        assert(entries(b) =~= entries(a).filter(other_entries(kind)));
        assert(source_views(b.detected_sources@) =~= source_views(a.detected_sources@).filter(
            other_sources(kind),
        ));
        assert(source_views(b.undetected_sources@) =~= source_views(
            a.undetected_sources@,
        ).filter(other_sources(kind)));
    } else {
        let at = m - 1;
        lemma_states_without(
            query,
            evaluate,
            fetch,
            elapsed,
            average,
            detect,
            integrate,
            seeds,
            measure,
            perturb,
            names,
            settings,
            inputs,
            states,
            kind,
            at,
        );
        assert(input_views(inputs.0).len() == inputs.0.len());
        assert(input_views(inputs.1).len() == inputs.1.len());
        assert(input_views(inputs.0)[at] == input_views(inputs.1)[at]);
        assert(inputs.0[at]@ == inputs.1[at]@);
        assert(inputs.0[at]@.transient_type == inputs.0[at].transient_type@);
        assert(inputs.1[at]@.transient_type == inputs.1[at].transient_type@);
        assert(is_step(
            query,
            evaluate.0,
            fetch,
            elapsed,
            average,
            detect,
            integrate,
            seeds,
            measure,
            perturb,
            names.0,
            settings.0,
            &inputs.0[at],
            states.0[at],
            states.0[at + 1],
        ));
        assert(is_step(
            query,
            evaluate.1,
            fetch,
            elapsed,
            average,
            detect,
            integrate,
            seeds,
            measure,
            perturb,
            names.1,
            settings.1,
            &inputs.1[at],
            states.1[at],
            states.1[at + 1],
        ));
        let own = inputs.0[at].transient_type@;
        let n = settings.0.n_transients;
        let past = of_type(inputs.0, kind, at);
        if own == kind {
            assert(n * past + n == n * (past + 1)) by (nonlinear_arith);
            let (m, q) = choose|model: usize, queries: Vec<Vec<usize>>|
                is_model_of(names.0, inputs.0[at].transient_type@, model) && call_ensures(
                    *query,
                    (&inputs.0[at], settings.0.time_window_days),
                    queries,
                ) && #[trigger] is_entered(
                    evaluate.0,
                    fetch,
                    elapsed,
                    average,
                    detect,
                    integrate,
                    seeds,
                    measure,
                    perturb,
                    &inputs.0[at],
                    model,
                    queries@,
                    settings.0,
                    states.0[at],
                    states.0[at + 1],
                );
            let added = lemma_common_addition(
                query,
                (evaluate.0, evaluate.0),
                fetch,
                elapsed,
                average,
                detect,
                integrate,
                seeds,
                measure,
                perturb,
                (names.0, names.0),
                (settings.0, settings.0),
                (&inputs.0[at], &inputs.0[at]),
                (m, m),
                (q, q),
                (states.0[at], states.0[at]),
                (states.0[at + 1], states.0[at + 1]),
            );
            lemma_added_without(
                states.0[at],
                states.0[at + 1],
                settings.0.include_undetected,
                own,
                added,
                kind,
            );
            assert(states.1[at + 1] == states.1[at]);
            let (x, y) = (states.0[at + 1], states.1[at + 1]);
            assert(source_views(y.detected_sources@) =~= source_views(
                x.detected_sources@,
            ).filter(other_sources(kind)));
            assert(source_views(y.undetected_sources@) =~= source_views(
                x.undetected_sources@,
            ).filter(other_sources(kind)));
        } else if !lacks_model(names.0, own) {
            assert(!lacks_model(names.1, own));
            let (m, q) = choose|model: usize, queries: Vec<Vec<usize>>|
                is_model_of(names.0, inputs.0[at].transient_type@, model) && call_ensures(
                    *query,
                    (&inputs.0[at], settings.0.time_window_days),
                    queries,
                ) && #[trigger] is_entered(
                    evaluate.0,
                    fetch,
                    elapsed,
                    average,
                    detect,
                    integrate,
                    seeds,
                    measure,
                    perturb,
                    &inputs.0[at],
                    model,
                    queries@,
                    settings.0,
                    states.0[at],
                    states.0[at + 1],
                );
            let (n, r) = choose|model: usize, queries: Vec<Vec<usize>>|
                is_model_of(names.1, inputs.1[at].transient_type@, model) && call_ensures(
                    *query,
                    (&inputs.1[at], settings.1.time_window_days),
                    queries,
                ) && #[trigger] is_entered(
                    evaluate.1,
                    fetch,
                    elapsed,
                    average,
                    detect,
                    integrate,
                    seeds,
                    measure,
                    perturb,
                    &inputs.1[at],
                    model,
                    queries@,
                    settings.1,
                    states.1[at],
                    states.1[at + 1],
                );
            let added = lemma_common_addition(
                query,
                evaluate,
                fetch,
                elapsed,
                average,
                detect,
                integrate,
                seeds,
                measure,
                perturb,
                names,
                settings,
                (&inputs.0[at], &inputs.1[at]),
                (m, n),
                (q, r),
                (states.0[at], states.1[at]),
                (states.0[at + 1], states.1[at + 1]),
            );
            lemma_added_without(
                states.0[at],
                states.0[at + 1],
                settings.0.include_undetected,
                own,
                added,
                kind,
            );
        } else {
            assert(lacks_model(names.1, own));
        }
    }
}

/// Taking away a model takes out the entries and sources of its type and nothing else: what is left
/// is the same, in the same order.
pub proof fn law_without_model<
    Q: Fn(&PopulationInput, Double) -> Vec<Vec<usize>>,
    E: Fn(&PopulationInput, usize, &Vec<Sighting>) -> Vec<Option<LightcurveEvaluation>>,
    T: Fn(&PopulationInput, usize, &Vec<Sighting>) -> Vec<Option<LightcurveEvaluation>>,
    F: Fn(usize) -> SurveyObservation,
    L: Fn(Double, Double) -> Double,
    C: Fn(&BinSummary) -> StackedValues,
    D: Fn(&PopulationInput, &Vec<Measured>) -> Vec<Verdict>,
    R: Fn(&PopulationInput, usize, &Vec<bool>, usize, Double) -> Rates,
    K: Fn(Double, Double) -> (u64, u64),
    M: Fn(Double, Double) -> (Double, Double),
    P: Fn(Double, Double, u64, u64) -> Double,
>(
    query: &Q,
    evaluate: (&E, &T),
    fetch: &F,
    elapsed: &L,
    average: &C,
    detect: &D,
    integrate: &R,
    seeds: &K,
    measure: &M,
    perturb: &P,
    names: (Seq<String>, Seq<String>),
    settings: (RunSettings, RunSettings),
    inputs: (Seq<PopulationInput>, Seq<PopulationInput>),
    results: (PipelineResult, PipelineResult),
    kind: Seq<char>,
)
    requires
        are_alike((evaluate.0, evaluate.0), (names.0, names.0)),
        are_alike(evaluate, names),
        are_fixed(query, fetch, elapsed, average, detect, integrate, seeds, measure, perturb),
        same_course(settings.0, settings.1),
        input_views(inputs.0) == input_views(inputs.1),
        settings.0.include_undetected == settings.1.include_undetected,
        lacks_only(names, kind),
        is_outcome(
            query,
            evaluate.0,
            fetch,
            elapsed,
            average,
            detect,
            integrate,
            seeds,
            measure,
            perturb,
            names.0,
            settings.0,
            inputs.0,
            results.0,
        ),
        is_outcome(
            query,
            evaluate.1,
            fetch,
            elapsed,
            average,
            detect,
            integrate,
            seeds,
            measure,
            perturb,
            names.1,
            settings.1,
            inputs.1,
            results.1,
        ),
    ensures
        is_without(
            results.0,
            results.1,
            kind,
            settings.0.n_transients,
            of_type(inputs.0, kind, inputs.0.len() as int),
        ),
{
    let s0 = choose|states: Seq<PipelineResult>|
        states.len() == inputs.0.len() + 1 && states.last() == results.0 && #[trigger] is_trace(
            query,
            evaluate.0,
            fetch,
            elapsed,
            average,
            detect,
            integrate,
            seeds,
            measure,
            perturb,
            names.0,
            settings.0,
            inputs.0,
            states,
        );
    let s1 = choose|states: Seq<PipelineResult>|
        states.len() == inputs.1.len() + 1 && states.last() == results.1 && #[trigger] is_trace(
            query,
            evaluate.1,
            fetch,
            elapsed,
            average,
            detect,
            integrate,
            seeds,
            measure,
            perturb,
            names.1,
            settings.1,
            inputs.1,
            states,
        );
    let states = (s0, s1);
    assert(input_views(inputs.0).len() == inputs.0.len());
    assert(input_views(inputs.1).len() == inputs.1.len());
    lemma_states_without(
        query,
        evaluate,
        fetch,
        elapsed,
        average,
        detect,
        integrate,
        seeds,
        measure,
        perturb,
        names,
        settings,
        inputs,
        states,
        kind,
        inputs.0.len() as int,
    );
}

/// What is drawn, and the words that are left, depend on the words that the generator will hand
/// out, on the population and on the number of transients alone.
pub open spec fn is_fixed_draw<G, H: Fn(SmallRng, &G, usize) -> (PopulationInput, SmallRng)>(
    generate: &H,
) -> bool {
    forall|
        q: SmallRng,
        r: SmallRng,
        one: G,
        n: usize,
        a: (PopulationInput, SmallRng),
        b: (PopulationInput, SmallRng),
    |
        upcoming_words(q) == upcoming_words(r) && #[trigger] call_ensures(
            *generate,
            (q, &one, n),
            a,
        ) && #[trigger] call_ensures(*generate, (r, &one, n), b) ==> a.0@ == b.0@
            && upcoming_words(a.1) == upcoming_words(b.1)
}

proof fn lemma_draws_repeat<G, H: Fn(SmallRng, &G, usize) -> (PopulationInput, SmallRng)>(
    generate: &H,
    built: Seq<G>,
    n: usize,
    generators: (Seq<SmallRng>, Seq<SmallRng>),
    inputs: (Seq<PopulationInput>, Seq<PopulationInput>),
    m: int,
)
    requires
        is_fixed_draw(generate),
        are_draws(generate, built, n, generators.0, inputs.0),
        are_draws(generate, built, n, generators.1, inputs.1),
        upcoming_words(generators.0[0]) == upcoming_words(generators.1[0]),
        0 <= m <= built.len(),
    ensures
        upcoming_words(generators.0[m]) == upcoming_words(generators.1[m]),
        forall|i: int| 0 <= i < m ==> (#[trigger] inputs.0[i])@ == inputs.1[i]@,
    decreases m,
{
    if m > 0 {
        let at = m - 1;
        lemma_draws_repeat(generate, built, n, generators, inputs, at);
        assert(call_ensures(
            *generate,
            (generators.0[at], &built[at], n),
            (inputs.0[at], generators.0[at + 1]),
        ));
        assert(call_ensures(
            *generate,
            (generators.1[at], &built[at], n),
            (inputs.1[at], generators.1[at + 1]),
        ));
    }
}

/// What is built depends on the number and the kind of a population alone.
pub open spec fn is_fixed_build<G, Z, B: Fn(usize, PopulationKind) -> Result<G, Z>>(
    build: &B,
) -> bool {
    forall|i: usize, kind: PopulationKind, r: Result<G, Z>, s: Result<G, Z>| #[trigger]
        call_ensures(*build, (i, kind), r) && #[trigger] call_ensures(*build, (i, kind), s) ==> r
            == s
}

/// The populations of a run are the same each time, whatever models are there: they are drawn from
/// the seed alone, those without a model too.
pub proof fn law_generated_repeats<
    G,
    Z,
    B: Fn(usize, PopulationKind) -> Result<G, Z>,
    H: Fn(SmallRng, &G, usize) -> (PopulationInput, SmallRng),
>(
    build: &B,
    generate: &H,
    objects: Seq<Vec<bool>>,
    seed: u64,
    n_transients: usize,
    first: Seq<PopulationInput>,
    second: Seq<PopulationInput>,
)
    requires
        objects.len() <= usize::MAX,
        is_fixed_build(build),
        is_fixed_draw(generate),
        are_generated(build, generate, objects, seed, n_transients, first),
        are_generated(build, generate, objects, seed, n_transients, second),
    ensures
        first.len() == objects.len(),
        input_views(first) == input_views(second),
{
    let (q, a) = choose|rng: SmallRng, built: Seq<G>|
        are_built(build, objects, built) && built.len() == objects.len() && upcoming_words(rng)
            == seeded_words(seed, usize::BITS as int) && #[trigger] are_drawn(
            generate,
            rng,
            built,
            n_transients,
            first,
        );
    let (r, b) = choose|rng: SmallRng, built: Seq<G>|
        are_built(build, objects, built) && built.len() == objects.len() && upcoming_words(rng)
            == seeded_words(seed, usize::BITS as int) && #[trigger] are_drawn(
            generate,
            rng,
            built,
            n_transients,
            second,
        );
    assert forall|i: int| 0 <= i < objects.len() implies a[i] == b[i] by {
        assert(is_built(build, objects[i]@, i as usize, a[i]));
        assert(is_built(build, objects[i]@, i as usize, b[i]));
        let x = choose|kind: PopulationKind|
            is_kind_of(objects[i]@, kind) && #[trigger] call_ensures(
                *build,
                (i as usize, kind),
                Ok(a[i]),
            );
        let y = choose|kind: PopulationKind|
            is_kind_of(objects[i]@, kind) && #[trigger] call_ensures(
                *build,
                (i as usize, kind),
                Ok(b[i]),
            );
        lemma_kind_unique(objects[i]@, x, y);
    }
    assert(a =~= b);
    let x = choose|generators: Seq<SmallRng>| #[trigger]
        are_draws(generate, a, n_transients, generators, first) && generators[0] == q;
    let y = choose|generators: Seq<SmallRng>| #[trigger]
        are_draws(generate, a, n_transients, generators, second) && generators[0] == r;
    lemma_draws_repeat(generate, a, n_transients, (x, y), (first, second), a.len() as int);
    assert(input_views(first) =~= input_views(second));
}

/// An object is of one kind.
proof fn lemma_kind_unique(matches: Seq<bool>, a: PopulationKind, b: PopulationKind)
    requires
        is_kind_of(matches, a),
        is_kind_of(matches, b),
    ensures
        a == b,
{
    let x = choose|place: int| #[trigger]
        is_first(matches, POPULATION_KINDS as int, place) && a == kind_at(place);
    let y = choose|place: int| #[trigger]
        is_first(matches, POPULATION_KINDS as int, place) && b == kind_at(place);
    if x < y {
        assert(!matches[x]);
    }
    if y < x {
        assert(!matches[y]);
    }
}

} // verus!
