//! Simulations that follow gravitational waves to a target of opportunity.
use vstd::prelude::*;
use vstd::string::StringExecFns;

use crate::dispatch::{
    is_first, kind_at, none_below, resolve_too_population, ModelKind, PipelineError,
    PopulationKind, KILONOVA_KINDS,
};
use crate::double::Double;
use crate::text::{decimal, decimal_text};

verus! {

/// What became of one event.
#[derive(Clone, Copy, Debug, PartialEq, Eq, Structural)]
pub struct EventOutcome {
    pub detected: bool,
    /// Distance in Mpc.
    pub distance_mpc: Double,
    /// Area of the 90% credible region in square degrees.
    pub area_90: Double,
    pub n_detections: usize,
}

/// What a simulation gives.
#[derive(Debug)]
pub struct TooOutcome {
    pub strategy_name: String,
    pub n_events: usize,
    pub n_detected: usize,
    pub efficiency: Double,
    pub events: Vec<EventOutcome>,
}

/// The result of a simulation, the events in columns.
#[derive(Debug)]
pub struct PyTooSimulationResult {
    pub strategy_name: String,
    pub n_events: usize,
    pub n_detected: usize,
    pub efficiency: Double,
    /// Whether each event was detected.
    pub detected: Vec<bool>,
    /// The distance of each event in Mpc.
    pub distances: Vec<Double>,
    /// The area of each event in square degrees.
    pub areas_90: Vec<Double>,
    /// The number of detections of each event.
    pub n_detections_per_event: Vec<usize>,
}

/// `result` is a simulation with its events in columns.
pub open spec fn is_tabulated(outcome: TooOutcome, result: PyTooSimulationResult) -> bool {
    &&& result.strategy_name == outcome.strategy_name
    &&& result.n_events == outcome.n_events
    &&& result.n_detected == outcome.n_detected
    &&& result.efficiency == outcome.efficiency
    &&& result.detected@.len() == outcome.events@.len()
    &&& result.distances@.len() == outcome.events@.len()
    &&& result.areas_90@.len() == outcome.events@.len()
    &&& result.n_detections_per_event@.len() == outcome.events@.len()
    &&& forall|i: int|
        0 <= i < outcome.events@.len() ==> #[trigger] outcome.events@[i] == (EventOutcome {
            detected: result.detected@[i],
            distance_mpc: result.distances@[i],
            area_90: result.areas_90@[i],
            n_detections: result.n_detections_per_event@[i],
        })
}

/// The line that stands for a simulation; `efficiency` is the text of its efficiency.
pub open spec fn too_line(result: PyTooSimulationResult, efficiency: String) -> Seq<char> {
    "TooSimulationResult(strategy='"@ + result.strategy_name@ + "', events="@ + decimal(
        result.n_events as int,
    ) + ", detected="@ + decimal(result.n_detected as int) + ", efficiency="@ + efficiency@ + ")"@
}

/// `line` stands for a simulation. `fixed` writes a number with the given number of decimals.
pub open spec fn is_too_line<X: Fn(Double, usize) -> String>(
    fixed: &X,
    result: PyTooSimulationResult,
    line: Seq<char>,
) -> bool {
    exists|efficiency: String|
        call_ensures(*fixed, (result.efficiency, 3usize), efficiency) && line
            == #[trigger] too_line(result, efficiency)
}

impl PyTooSimulationResult {
    /// Puts the events of a simulation in columns.
    pub fn from_outcome(outcome: TooOutcome) -> (res: PyTooSimulationResult)
        ensures
            is_tabulated(outcome, res),
    {
        let mut detected: Vec<bool> = Vec::new();
        let mut distances: Vec<Double> = Vec::new();
        let mut areas_90: Vec<Double> = Vec::new();
        let mut n_detections_per_event: Vec<usize> = Vec::new();
        for i in 0..outcome.events.len()
            invariant
                detected@.len() == i,
                distances@.len() == i,
                areas_90@.len() == i,
                n_detections_per_event@.len() == i,
                forall|j: int|
                    0 <= j < i ==> #[trigger] outcome.events@[j] == (EventOutcome {
                        detected: detected@[j],
                        distance_mpc: distances@[j],
                        area_90: areas_90@[j],
                        n_detections: n_detections_per_event@[j],
                    }),
        {
            let event = &outcome.events[i];
            detected.push(event.detected);
            distances.push(event.distance_mpc);
            areas_90.push(event.area_90);
            n_detections_per_event.push(event.n_detections);
        }
        PyTooSimulationResult {
            strategy_name: outcome.strategy_name,
            n_events: outcome.n_events,
            n_detected: outcome.n_detected,
            efficiency: outcome.efficiency,
            detected,
            distances,
            areas_90,
            n_detections_per_event,
        }
    }

    /// One line on the simulation.
    pub fn __repr__<X: Fn(Double, usize) -> String>(&self, fixed: &X) -> (res: String)
        requires
            forall|x: Double, decimals: usize| call_requires(*fixed, (x, decimals)),
        ensures
            is_too_line(fixed, *self, res@),
    {
        let efficiency = fixed(self.efficiency, 3);
        let mut res = String::from_str("TooSimulationResult(strategy='");
        res.append(self.strategy_name.as_str());
        res.append("', events=");
        res.append(decimal_text(self.n_events as u64).as_str());
        res.append(", detected=");
        res.append(decimal_text(self.n_detected as u64).as_str());
        res.append(", efficiency=");
        res.append(efficiency.as_str());
        res.append(")");
        assert(res@ == too_line(*self, efficiency));
        res
    }
}

/// The model of a simulation that follows gravitational waves: an object that is no Metzger model
/// is called back.
pub open spec fn too_model(is_metzger: bool) -> ModelKind {
    if is_metzger {
        ModelKind::MetzgerKn
    } else {
        ModelKind::Callback
    }
}

/// `result` is what `simulate` can give with the strategy of the name, a kilonova population of
/// the first kind that fits, and the model.
pub open spec fn is_too_result<
    T,
    N: Fn(&String) -> Option<T>,
    U: Fn(T, PopulationKind, ModelKind) -> TooOutcome,
>(
    find: &N,
    simulate: &U,
    strategy: String,
    matches: Seq<bool>,
    is_metzger: bool,
    result: PyTooSimulationResult,
) -> bool {
    exists|found: T, place: int, outcome: TooOutcome|
        call_ensures(*find, (&strategy,), Some(found)) && is_first(
            matches,
            KILONOVA_KINDS as int,
            place,
        ) && #[trigger] call_ensures(
            *simulate,
            (found, kind_at(place), too_model(is_metzger)),
            outcome,
        ) && is_tabulated(outcome, result)
}

/// Simulates how a survey follows gravitational waves.
///
/// `find` looks up the observing strategy of a name. `matches` says, for each kind of population
/// in order, whether the population object is of that kind; the first kilonova that fits is taken.
/// An unknown strategy is refused before an unsupported population.
pub fn run_too_simulation<
    T,
    N: Fn(&String) -> Option<T>,
    U: Fn(T, PopulationKind, ModelKind) -> TooOutcome,
>(strategy: &String, matches: &Vec<bool>, is_metzger: bool, find: &N, simulate: &U) -> (res: Result<
    PyTooSimulationResult,
    PipelineError,
>)
    requires
        forall|name: String| call_requires(*find, (&name,)),
        forall|found: T, kind: PopulationKind, model: ModelKind|
            call_requires(*simulate, (found, kind, model)),
    ensures
        match res {
            Ok(result) => is_too_result(
                find,
                simulate,
                *strategy,
                matches@,
                is_metzger,
                result,
            ),
            Err(PipelineError::UnknownStrategy { name }) => name == *strategy && call_ensures(
                *find,
                (strategy,),
                None::<T>,
            ),
            Err(error) => error == PipelineError::UnsupportedTooPopulation && none_below(
                matches@,
                KILONOVA_KINDS as int,
            ) && exists|found: T| #[trigger] call_ensures(*find, (strategy,), Some(found)),
        },
{
    match find(strategy) {
        None => Err(PipelineError::UnknownStrategy { name: strategy.clone() }),
        Some(found) => {
            match resolve_too_population(matches) {
                Err(error) => {
                    assert(call_ensures(*find, (strategy,), Some(found)));
                    Err(error)
                },
                Ok(kind) => {
                    let model = if is_metzger {
                        ModelKind::MetzgerKn
                    } else {
                        ModelKind::Callback
                    };
                    let outcome = simulate(found, kind, model);
                    Ok(PyTooSimulationResult::from_outcome(outcome))
                },
            }
        },
    }
}

} // verus!
