//! What a simulation is set up with.
use rand::rngs::SmallRng;
use vstd::prelude::*;

use crate::dispatch::{
    are_built, is_build_failure, is_built, is_first, is_kind_of, is_model_of, is_rejected, kind_at,
    lacks_model, none_below, BuildError, ModelKind, PipelineError, PopulationKind, KILONOVA_KINDS,
    POPULATION_KINDS,
};
use crate::double::Double;
use crate::noise::{seeded_words, upcoming_words};
use crate::pipeline::RunSettings;
use crate::report_laws::{is_kilonova, law_kinds_and_places, place_of};
use crate::simulation::{are_draws, are_drawn, are_generated, PySimulationPipeline};
use crate::sources::PopulationInput;
use crate::too::{is_tabulated, is_too_result, too_model, PyTooSimulationResult, TooOutcome};

verus! {

/// An object is taken as a kind if and only if it fits that kind and none that is tried before it.
pub proof fn law_first_fitting_kind(matches: Seq<bool>, kind: PopulationKind)
    ensures
        is_kind_of(matches, kind) <==> {
            &&& place_of(kind) < matches.len()
            &&& matches[place_of(kind)]
            &&& forall|i: int| 0 <= i < place_of(kind) ==> !(#[trigger] matches[i])
        },
{
    law_kinds_and_places(kind, 0);
    if is_kind_of(matches, kind) {
        let place = choose|place: int| #[trigger]
            is_first(matches, POPULATION_KINDS as int, place) && kind == kind_at(place);
        law_kinds_and_places(kind, place);
    }
    if place_of(kind) < matches.len() && matches[place_of(kind)] && forall|i: int|
        0 <= i < place_of(kind) ==> !(#[trigger] matches[i]) {
        assert(is_first(matches, POPULATION_KINDS as int, place_of(kind)));
    }
}

/// An object fits some kind.
pub open spec fn fits(matches: Seq<bool>) -> bool {
    exists|i: int| 0 <= i < matches.len() && i < POPULATION_KINDS && #[trigger] matches[i]
}

/// Building the populations fails at the first that cannot be built: all before it fit a kind, and
/// it fits none, or is refused although it fits one.
pub proof fn law_first_failure<G, X, B: Fn(usize, PopulationKind) -> Result<G, X>>(
    build: &B,
    objects: Seq<Vec<bool>>,
    error: BuildError<X>,
)
    requires
        is_build_failure(build, objects, error),
    ensures
        exists|i: int|
            {
                &&& 0 <= i < objects.len()
                &&& forall|j: int| 0 <= j < i ==> fits((#[trigger] objects[j])@)
                &&& error is Refused <==> !fits((#[trigger] objects[i])@)
                &&& error matches BuildError::Refused(reason) ==> reason
                    == PipelineError::UnsupportedPopulation
                &&& error matches BuildError::Rejected(reason) ==> exists|kind: PopulationKind|
                    is_kind_of(objects[i]@, kind) && #[trigger] call_ensures(
                        *build,
                        (i as usize, kind),
                        Err(reason),
                    )
            },
{
    let built = choose|built: Seq<G>| #[trigger]
        are_built(build, objects, built) && built.len() < objects.len() && match error {
            BuildError::Refused(reason) => reason == PipelineError::UnsupportedPopulation
                && none_below(
                objects[built.len() as int]@,
                POPULATION_KINDS as int,
            ),
            BuildError::Rejected(reason) => is_rejected(
                build,
                objects[built.len() as int]@,
                built.len() as usize,
                reason,
            ),
        };
    let i = built.len() as int;
    assert forall|j: int| 0 <= j < i implies fits((#[trigger] objects[j])@) by {
        assert(is_built(build, objects[j]@, j as usize, built[j]));
        let kind = choose|kind: PopulationKind|
            is_kind_of(objects[j]@, kind) && #[trigger] call_ensures(
                *build,
                (j as usize, kind),
                Ok(built[j]),
            );
        law_first_fitting_kind(objects[j]@, kind);
        law_kinds_and_places(kind, 0);
        assert(objects[j]@[place_of(kind)]);
    }
    if let BuildError::Rejected(reason) = error {
        let kind = choose|kind: PopulationKind|
            is_kind_of(objects[i]@, kind) && #[trigger] call_ensures(
                *build,
                (i as usize, kind),
                Err(reason),
            );
        law_first_fitting_kind(objects[i]@, kind);
        law_kinds_and_places(kind, 0);
        assert(objects[i]@[place_of(kind)]);
    }
    assert(objects[i] == objects[i]);
}

/// A type of transient has the first model of its name, and none if no model has it.
pub proof fn law_model_by_name(names: Seq<String>, transient_type: Seq<char>, model: usize)
    ensures
        is_model_of(names, transient_type, model) <==> {
            &&& model < names.len()
            &&& names[model as int]@ == transient_type
            &&& forall|m: int| 0 <= m < model ==> (#[trigger] names[m])@ != transient_type
        },
        is_model_of(names, transient_type, model) ==> !lacks_model(names, transient_type),
{
    if model < names.len() && names[model as int]@ == transient_type {
        let front = names.take(model as int);
        if lacks_model(front, transient_type) {
            assert forall|m: int| 0 <= m < model implies (#[trigger] names[m])@
                != transient_type by {
                assert(front[m] == names[m]);
            }
        }
        if forall|m: int| 0 <= m < model ==> (#[trigger] names[m])@ != transient_type {
            assert forall|m: int| 0 <= m < front.len() implies (#[trigger] front[m])@
                != transient_type by {
                assert(front[m] == names[m]);
            }
        }
    }
}

/// A run has the settings of its simulation, and its time windows are those of the simulation, each
/// turned from seconds to days and all in their order; there are none if none were set.
pub proof fn law_settings_of_run<Y: Fn(Double) -> Double>(
    pipeline: PySimulationPipeline,
    days: &Y,
    include_undetected: bool,
    settings: RunSettings,
)
    requires
        pipeline.are_settings(days, include_undetected, settings),
    ensures
        settings.cuts.min_galactic_lat == pipeline.cuts.min_galactic_lat,
        settings.cuts.completeness_k == pipeline.cuts.completeness_k,
        settings.n_transients == pipeline.n_transients,
        settings.time_window_days == pipeline.time_window_days,
        settings.include_undetected == include_undetected,
        settings.windows_days is Some <==> pipeline.stack_windows_s is Some,
        settings.windows_days is Some ==> {
            let (from, to) = ((pipeline.stack_windows_s->0)@, (settings.windows_days->0)@);
            &&& to.len() == from.len()
            &&& forall|i: int| 0 <= i < to.len() ==> call_ensures(*days, (from[i],), #[trigger] to[i])
        },
{
}

/// The populations of a run are drawn one after the other, each once with the number of transients
/// asked for, from the population built for the kind of its object, and all from one generator with
/// the seed of the simulation, which each leaves to the next as it is.
pub proof fn law_drawn_in_turn<
    G,
    Z,
    B: Fn(usize, PopulationKind) -> Result<G, Z>,
    H: Fn(SmallRng, &G, usize) -> (PopulationInput, SmallRng),
>(
    build: &B,
    generate: &H,
    objects: Seq<Vec<bool>>,
    seed: u64,
    n_transients: usize,
    inputs: Seq<PopulationInput>,
)
    requires
        are_generated(build, generate, objects, seed, n_transients, inputs),
    ensures
        inputs.len() == objects.len(),
        exists|built: Seq<G>, generators: Seq<SmallRng>|
            {
                &&& built.len() == objects.len()
                &&& generators.len() == objects.len() + 1
                &&& upcoming_words(generators[0]) == seeded_words(seed, usize::BITS as int)
                &&& forall|i: int|
                    0 <= i < objects.len() ==> #[trigger] is_drawn_from(
                        build,
                        generate,
                        objects,
                        n_transients,
                        built,
                        generators,
                        inputs,
                        i,
                    )
            },
{
    let (rng, built) = choose|rng: SmallRng, built: Seq<G>|
        are_built(build, objects, built) && built.len() == objects.len() && upcoming_words(rng)
            == seeded_words(seed, usize::BITS as int) && #[trigger] are_drawn(
            generate,
            rng,
            built,
            n_transients,
            inputs,
        );
    let generators = choose|generators: Seq<SmallRng>| #[trigger]
        are_draws(generate, built, n_transients, generators, inputs) && generators[0] == rng;
    assert forall|i: int| 0 <= i < objects.len() implies #[trigger] is_drawn_from(
        build,
        generate,
        objects,
        n_transients,
        built,
        generators,
        inputs,
        i,
    ) by {
        assert(is_built(build, objects[i]@, i as usize, built[i]));
        assert(call_ensures(
            *generate,
            (generators[i], &built[i], n_transients),
            (inputs[i], generators[i + 1]),
        ));
    }
}

/// Population `i` is drawn from what was built for its object, with the generator as the one before
/// left it.
pub open spec fn is_drawn_from<
    G,
    Z,
    B: Fn(usize, PopulationKind) -> Result<G, Z>,
    H: Fn(SmallRng, &G, usize) -> (PopulationInput, SmallRng),
>(
    build: &B,
    generate: &H,
    objects: Seq<Vec<bool>>,
    n_transients: usize,
    built: Seq<G>,
    generators: Seq<SmallRng>,
    inputs: Seq<PopulationInput>,
    i: int,
) -> bool {
    &&& exists|kind: PopulationKind|
        is_kind_of(objects[i]@, kind) && #[trigger] call_ensures(
            *build,
            (i as usize, kind),
            Ok(built[i]),
        )
    &&& call_ensures(
        *generate,
        (generators[i], &built[i], n_transients),
        (inputs[i], generators[i + 1]),
    )
}

/// The columns of a simulation that follows gravitational waves hold its events one by one.
pub proof fn law_events_in_columns(outcome: TooOutcome, result: PyTooSimulationResult, i: int)
    requires
        is_tabulated(outcome, result),
        0 <= i < outcome.events@.len(),
    ensures
        result.strategy_name@ == outcome.strategy_name@,
        result.n_events == outcome.n_events,
        result.n_detected == outcome.n_detected,
        result.efficiency == outcome.efficiency,
        result.detected@.len() == outcome.events@.len(),
        result.distances@.len() == outcome.events@.len(),
        result.areas_90@.len() == outcome.events@.len(),
        result.n_detections_per_event@.len() == outcome.events@.len(),
        result.detected@[i] == outcome.events@[i].detected,
        result.distances@[i] == outcome.events@[i].distance_mpc,
        result.areas_90@[i] == outcome.events@[i].area_90,
        result.n_detections_per_event@[i] == outcome.events@[i].n_detections,
{
    assert(outcome.events@[i] == outcome.events@[i]);
}

/// A simulation that follows gravitational waves runs the strategy of the given name, the first
/// kilonova that the object fits, and the Metzger model if that was given.
pub proof fn law_too_simulation<
    T,
    N: Fn(&String) -> Option<T>,
    U: Fn(T, PopulationKind, ModelKind) -> TooOutcome,
>(
    find: &N,
    simulate: &U,
    strategy: String,
    matches: Seq<bool>,
    is_metzger: bool,
    result: PyTooSimulationResult,
)
    requires
        is_too_result(find, simulate, strategy, matches, is_metzger, result),
    ensures
        exists|found: T, kind: PopulationKind, model: ModelKind, outcome: TooOutcome|
            {
                &&& call_ensures(*find, (&strategy,), Some(found))
                &&& is_kilonova(kind)
                &&& is_kind_of(matches, kind)
                &&& model is MetzgerKn <==> is_metzger
                &&& model is Callback <==> !is_metzger
                &&& #[trigger] call_ensures(*simulate, (found, kind, model), outcome)
                &&& is_tabulated(outcome, result)
            },
{
    let (found, place, outcome) = choose|found: T, place: int, outcome: TooOutcome|
        call_ensures(*find, (&strategy,), Some(found)) && is_first(
            matches,
            KILONOVA_KINDS as int,
            place,
        ) && #[trigger] call_ensures(
            *simulate,
            (found, kind_at(place), too_model(is_metzger)),
            outcome,
        ) && is_tabulated(outcome, result);
    law_kinds_and_places(kind_at(place), place);
    assert(is_first(matches, POPULATION_KINDS as int, place));
    assert(call_ensures(*simulate, (found, kind_at(place), too_model(is_metzger)), outcome));
}

} // verus!
