//! Which population and which model an object given to the pipeline stands for.
use vstd::prelude::*;
use vstd::string::StringExecFns;

verus! {

/// The populations that can be simulated, in the order in which an object is tried as one.
#[derive(Clone, Copy, Debug, PartialEq, Eq, Structural)]
pub enum PopulationKind {
    Kilonova,
    FixedMetzgerKilonova,
    Bu2026Kilonova,
    FixedBu2026Kilonova,
    SupernovaIa,
    SupernovaII,
    Tde,
    Fbot,
    Grb,
    OnAxisGrb,
    OffAxisGrb,
}

/// How many kinds of population there are.
pub const POPULATION_KINDS: usize = 11;

/// How many of them, the first ones, are kilonovae, which alone can follow a gravitational wave.
pub const KILONOVA_KINDS: usize = 4;

/// The models that lightcurves come from.
#[derive(Clone, Copy, Debug, PartialEq, Eq, Structural)]
pub enum ModelKind {
    MetzgerKn,
    Blastwave,
    Parametric,
    /// A model that is called back in the interpreter.
    Callback,
}

/// Why the pipeline refuses.
#[derive(Debug)]
pub enum PipelineError {
    UnsupportedPopulation,
    UnsupportedTooPopulation,
    UnknownStrategy { name: String },
    SourceIndexOutOfRange,
}

/// The text of a refusal.
pub open spec fn message_of(error: PipelineError) -> Seq<char> {
    match error {
        PipelineError::UnsupportedPopulation => "Unsupported population type"@,
        PipelineError::UnsupportedTooPopulation =>
            "Unsupported population type for ToO simulation"@,
        PipelineError::UnknownStrategy { name } => "Unknown ToO strategy '"@ + name@
            + "'. Available: rubin_gold, rubin_silver, ztf, ultrasat, uvex"@,
        PipelineError::SourceIndexOutOfRange => "source index out of range"@,
    }
}

impl PipelineError {
    /// The text that a user is told.
    pub fn message(&self) -> (res: String)
        ensures
            res@ == message_of(*self),
    {
        match self {
            PipelineError::UnsupportedPopulation => String::from_str("Unsupported population type"),
            PipelineError::UnsupportedTooPopulation => String::from_str(
                "Unsupported population type for ToO simulation",
            ),
            PipelineError::UnknownStrategy { name } => {
                let mut res = String::from_str("Unknown ToO strategy '");
                res.append(name.as_str());
                res.append("'. Available: rubin_gold, rubin_silver, ztf, ultrasat, uvex");
                res
            },
            PipelineError::SourceIndexOutOfRange => String::from_str("source index out of range"),
        }
    }
}

/// The kind at a place of the order in which objects are tried.
pub open spec fn kind_at(place: int) -> PopulationKind {
    if place == 0 {
        PopulationKind::Kilonova
    } else if place == 1 {
        PopulationKind::FixedMetzgerKilonova
    } else if place == 2 {
        PopulationKind::Bu2026Kilonova
    } else if place == 3 {
        PopulationKind::FixedBu2026Kilonova
    } else if place == 4 {
        PopulationKind::SupernovaIa
    } else if place == 5 {
        PopulationKind::SupernovaII
    } else if place == 6 {
        PopulationKind::Tde
    } else if place == 7 {
        PopulationKind::Fbot
    } else if place == 8 {
        PopulationKind::Grb
    } else if place == 9 {
        PopulationKind::OnAxisGrb
    } else {
        PopulationKind::OffAxisGrb
    }
}

/// The kind at a place of the order in which objects are tried.
fn population_kind(place: usize) -> (res: PopulationKind)
    requires
        place < POPULATION_KINDS,
    ensures
        res == kind_at(place as int),
{
    if place == 0 {
        PopulationKind::Kilonova
    } else if place == 1 {
        PopulationKind::FixedMetzgerKilonova
    } else if place == 2 {
        PopulationKind::Bu2026Kilonova
    } else if place == 3 {
        PopulationKind::FixedBu2026Kilonova
    } else if place == 4 {
        PopulationKind::SupernovaIa
    } else if place == 5 {
        PopulationKind::SupernovaII
    } else if place == 6 {
        PopulationKind::Tde
    } else if place == 7 {
        PopulationKind::Fbot
    } else if place == 8 {
        PopulationKind::Grb
    } else if place == 9 {
        PopulationKind::OnAxisGrb
    } else {
        PopulationKind::OffAxisGrb
    }
}

/// `place` is the first one below `limit` whose flag is set.
pub open spec fn is_first(flags: Seq<bool>, limit: int, place: int) -> bool {
    &&& 0 <= place < limit
    &&& place < flags.len()
    &&& flags[place]
    &&& forall|i: int| 0 <= i < place ==> !(#[trigger] flags[i])
}

/// No flag is set below `limit`.
pub open spec fn none_below(flags: Seq<bool>, limit: int) -> bool {
    forall|i: int| 0 <= i < limit && i < flags.len() ==> !(#[trigger] flags[i])
}

/// The first place below `limit` whose flag is set.
fn first_set(flags: &Vec<bool>, limit: usize) -> (res: Option<usize>)
    ensures
        match res {
            Some(place) => is_first(flags@, limit as int, place as int),
            None => none_below(flags@, limit as int),
        },
{
    let mut i: usize = 0;
    while i < limit && i < flags.len()
        invariant
            forall|j: int| 0 <= j < i ==> !(#[trigger] flags@[j]),
        decreases limit - i,
    {
        if flags[i] {
            return Some(i);
        }
        i = i + 1;
    }
    None
}

/// The kind of population that an object stands for. `matches` says, for each kind in order,
/// whether the object is of that kind; the first that fits is taken.
pub fn resolve_population(matches: &Vec<bool>) -> (res: Result<PopulationKind, PipelineError>)
    ensures
        match res {
            Ok(kind) => exists|place: int|
                #[trigger] is_first(matches@, POPULATION_KINDS as int, place) && kind == kind_at(place),
            Err(error) => none_below(matches@, POPULATION_KINDS as int)
                && error == PipelineError::UnsupportedPopulation,
        },
{
    match first_set(matches, POPULATION_KINDS) {
        Some(place) => Ok(population_kind(place)),
        None => Err(PipelineError::UnsupportedPopulation),
    }
}

/// Why the populations of a run could not be built.
#[derive(Debug)]
pub enum BuildError<X> {
    /// An object is of no kind.
    Refused(PipelineError),
    /// A population could not be built from its object.
    Rejected(X),
}

/// `built` is what `build` can give for the first populations, each from the kind of its object.
pub open spec fn are_built<G, X, B: Fn(usize, PopulationKind) -> Result<G, X>>(
    build: &B,
    objects: Seq<Vec<bool>>,
    built: Seq<G>,
) -> bool {
    &&& built.len() <= objects.len()
    &&& forall|i: int|
        0 <= i < built.len() ==> is_built(build, objects[i]@, i as usize, #[trigger] built[i])
}

/// `one` is what `build` can give for population `i`, whose object fits the kinds in `matches`.
pub open spec fn is_built<G, X, B: Fn(usize, PopulationKind) -> Result<G, X>>(
    build: &B,
    matches: Seq<bool>,
    i: usize,
    one: G,
) -> bool {
    exists|kind: PopulationKind|
        is_kind_of(matches, kind) && #[trigger] call_ensures(*build, (i, kind), Ok(one))
}

/// `error` is what `build` can give for population `i`.
pub open spec fn is_rejected<G, X, B: Fn(usize, PopulationKind) -> Result<G, X>>(
    build: &B,
    matches: Seq<bool>,
    i: usize,
    error: X,
) -> bool {
    exists|kind: PopulationKind|
        is_kind_of(matches, kind) && #[trigger] call_ensures(*build, (i, kind), Err(error))
}

/// The populations before some one can be built, and that one can fail with `error`.
pub open spec fn is_build_failure<G, X, B: Fn(usize, PopulationKind) -> Result<G, X>>(
    build: &B,
    objects: Seq<Vec<bool>>,
    error: BuildError<X>,
) -> bool {
    exists|built: Seq<G>| #[trigger]
        are_built(build, objects, built) && built.len() < objects.len() && match error {
            BuildError::Refused(reason) => reason == PipelineError::UnsupportedPopulation
                && none_below(objects[built.len() as int]@, POPULATION_KINDS as int),
            BuildError::Rejected(reason) => is_rejected(
                build,
                objects[built.len() as int]@,
                built.len() as usize,
                reason,
            ),
        }
}

/// Builds the populations of a run in order. `objects` says, for each object, which kinds it fits;
/// `build` makes the population of that number and kind. The first that fails refuses all.
pub fn build_populations<G, X, B: Fn(usize, PopulationKind) -> Result<G, X>>(
    objects: &Vec<Vec<bool>>,
    build: &B,
) -> (res: Result<Vec<G>, BuildError<X>>)
    requires
        forall|i: usize, kind: PopulationKind| call_requires(*build, (i, kind)),
    ensures
        match res {
            Ok(built) => are_built(build, objects@, built@) && built@.len() == objects@.len(),
            Err(error) => is_build_failure(build, objects@, error),
        },
{
    let mut built: Vec<G> = Vec::new();
    for i in 0..objects.len()
        invariant
            forall|j: usize, kind: PopulationKind| call_requires(*build, (j, kind)),
            built@.len() == i,
            are_built(build, objects@, built@),
    {
        match resolve_population(&objects[i]) {
            Ok(kind) => {
                match build(i, kind) {
                    Ok(one) => {
                        let ghost before = built@;
                        assert(is_built(build, objects@[i as int]@, i, one));
                        built.push(one);
                        assert forall|j: int| 0 <= j < built@.len() implies is_built(
                            build,
                            objects@[j]@,
                            j as usize,
                            #[trigger] built@[j],
                        ) by {
                            if j < before.len() {
                                assert(built@[j] == before[j]);
                            }
                        }
                    },
                    Err(reason) => {
                        assert(is_rejected(build, objects@[i as int]@, i, reason));
                        return Err(BuildError::Rejected(reason));
                    },
                }
            },
            Err(reason) => {
                return Err(BuildError::Refused(reason));
            },
        }
    }
    Ok(built)
}

/// `kind` is the first that fits.
pub open spec fn is_kind_of(matches: Seq<bool>, kind: PopulationKind) -> bool {
    exists|place: int| #[trigger]
        is_first(matches, POPULATION_KINDS as int, place) && kind == kind_at(place)
}

/// An object that fits some kind is not refused, and one that fits none is.
pub proof fn law_kind_or_none(matches: Seq<bool>)
    ensures
        (exists|place: int| is_first(matches, POPULATION_KINDS as int, place)) <==> !none_below(
            matches,
            POPULATION_KINDS as int,
        ),
{
    if !none_below(matches, POPULATION_KINDS as int) {
        let i = choose|i: int| 0 <= i < POPULATION_KINDS && i < matches.len() && #[trigger] matches[i];
        lemma_first_exists(matches, i);
    }
}

proof fn lemma_first_exists(matches: Seq<bool>, i: int)
    requires
        0 <= i < POPULATION_KINDS,
        i < matches.len(),
        matches[i],
    ensures
        exists|place: int| is_first(matches, POPULATION_KINDS as int, place),
    decreases i,
{
    if forall|j: int| 0 <= j < i ==> !(#[trigger] matches[j]) {
        assert(is_first(matches, POPULATION_KINDS as int, i));
    } else {
        let j = choose|j: int| 0 <= j < i && #[trigger] matches[j];
        lemma_first_exists(matches, j);
    }
}

/// The kind of model that an object stands for; an object of no known kind is called back.
pub fn resolve_model(is_metzger: bool, is_blastwave: bool, is_parametric: bool) -> (res: ModelKind)
    ensures
        res == if is_metzger {
            ModelKind::MetzgerKn
        } else if is_blastwave {
            ModelKind::Blastwave
        } else if is_parametric {
            ModelKind::Parametric
        } else {
            ModelKind::Callback
        },
{
    if is_metzger {
        ModelKind::MetzgerKn
    } else if is_blastwave {
        ModelKind::Blastwave
    } else if is_parametric {
        ModelKind::Parametric
    } else {
        ModelKind::Callback
    }
}

/// `model` is the place of the model for a type of transient: the first with its name.
pub open spec fn is_model_of(names: Seq<String>, transient_type: Seq<char>, model: usize) -> bool {
    &&& model < names.len()
    &&& names[model as int]@ == transient_type
    &&& lacks_model(names.take(model as int), transient_type)
}

/// No model has the name of the type.
pub open spec fn lacks_model(names: Seq<String>, transient_type: Seq<char>) -> bool {
    forall|j: int| 0 <= j < names.len() ==> (#[trigger] names[j])@ != transient_type
}

/// The place of the model for a type of transient, if there is one.
pub fn find_model(names: &Vec<String>, transient_type: &String) -> (res: Option<usize>)
    ensures
        match res {
            Some(model) => is_model_of(names@, transient_type@, model),
            None => lacks_model(names@, transient_type@),
        },
{
    for i in 0..names.len()
        invariant
            forall|j: int| 0 <= j < i ==> (#[trigger] names@[j])@ != transient_type@,
    {
        if names[i] == *transient_type {
            return Some(i);
        }
    }
    None
}

/// The kind of population for a simulation that follows gravitational waves: kilonovae alone.
pub fn resolve_too_population(matches: &Vec<bool>) -> (res: Result<PopulationKind, PipelineError>)
    ensures
        match res {
            Ok(kind) => exists|place: int|
                #[trigger] is_first(matches@, KILONOVA_KINDS as int, place) && kind == kind_at(place),
            Err(error) => none_below(matches@, KILONOVA_KINDS as int)
                && error == PipelineError::UnsupportedTooPopulation,
        },
{
    match first_set(matches, KILONOVA_KINDS) {
        Some(place) => Ok(population_kind(place)),
        None => Err(PipelineError::UnsupportedTooPopulation),
    }
}

} // verus!
