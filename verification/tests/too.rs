use survey_pipeline::dispatch::{ModelKind, PipelineError, PopulationKind};
use survey_pipeline::double::Double;
use survey_pipeline::too::{run_too_simulation, EventOutcome, TooOutcome};

fn d(x: f64) -> Double {
    Double { bits: x.to_bits() }
}

fn find(name: &String) -> Option<u32> {
    if name == "ztf" {
        Some(7)
    } else {
        None
    }
}

fn simulate(strategy: u32, kind: PopulationKind, model: ModelKind) -> TooOutcome {
    let event = |detected: bool, distance: f64, n: usize| EventOutcome {
        detected,
        distance_mpc: d(distance),
        area_90: d(distance / 2.0),
        n_detections: n,
    };
    TooOutcome {
        strategy_name: format!("{} {:?} {:?}", strategy, kind, model),
        n_events: 3,
        n_detected: 1,
        efficiency: d(1.0 / 3.0),
        events: vec![event(true, 100.0, 4), event(false, 250.0, 0)],
    }
}

fn fixed(x: Double, decimals: usize) -> String {
    format!("{:.*}", decimals, f64::from_bits(x.bits))
}

fn run(strategy: &str, matches: &[bool], metzger: bool) -> Result<String, PipelineError> {
    run_too_simulation(&strategy.to_string(), &matches.to_vec(), metzger, &find, &simulate)
        .map(|r| r.strategy_name)
}

#[test]
fn events_are_put_in_columns() {
    let result =
        run_too_simulation(&"ztf".to_string(), &vec![true], true, &find, &simulate).unwrap();
    assert_eq!(result.n_events, 3);
    assert_eq!(result.n_detected, 1);
    assert_eq!(result.efficiency, d(1.0 / 3.0));
    assert_eq!(result.detected, vec![true, false]);
    assert_eq!(result.distances, vec![d(100.0), d(250.0)]);
    assert_eq!(result.areas_90, vec![d(50.0), d(125.0)]);
    assert_eq!(result.n_detections_per_event, vec![4, 0]);
}

#[test]
fn strategy_population_and_model_are_handed_on() {
    assert_eq!(run("ztf", &[false, true, true], true).unwrap(), "7 FixedMetzgerKilonova MetzgerKn");
    assert_eq!(run("ztf", &[true], false).unwrap(), "7 Kilonova Callback");
}

#[test]
fn unknown_strategies_are_refused_first() {
    let refusal = run("gold", &[], true).unwrap_err();
    assert!(matches!(&refusal, PipelineError::UnknownStrategy { name } if name == "gold"));
    let refusal = run("ztf", &[false, false, false, false, true], true).unwrap_err();
    assert!(matches!(refusal, PipelineError::UnsupportedTooPopulation));
}

#[test]
fn too_results_have_one_line() {
    let result =
        run_too_simulation(&"ztf".to_string(), &vec![true], true, &find, &simulate).unwrap();
    assert_eq!(
        result.__repr__(&fixed),
        "TooSimulationResult(strategy='7 Kilonova MetzgerKn', events=3, detected=1, efficiency=0.333)"
    );
}
