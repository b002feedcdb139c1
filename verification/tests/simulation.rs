use rand::rngs::SmallRng;
use rand::{Rng, SeedableRng};
use survey_pipeline::dispatch::{BuildError, PipelineError, PopulationKind};
use survey_pipeline::double::Double;
use survey_pipeline::matching::{SelectionCuts, Sighting, Verdict};
use survey_pipeline::measurement::Measured;
use survey_pipeline::pipeline::Rates;
use survey_pipeline::results::PySimulationResult;
use survey_pipeline::simulation::{PySimulationPipeline, RunError};
use survey_pipeline::sources::{Param, PopulationInput, TransientInstance};
use survey_pipeline::stacking::{BinSummary, StackedValues};
use survey_pipeline::survey::{LightcurveEvaluation, MagTable, SurveyObservation};

fn d(x: f64) -> Double {
    Double { bits: x.to_bits() }
}

fn f(x: Double) -> f64 {
    f64::from_bits(x.bits)
}

const T_EXP: f64 = 60000.0;

fn instance(z: f64) -> TransientInstance {
    TransientInstance {
        ra: d(10.0),
        dec: d(20.0),
        t_exp: d(T_EXP),
        z: d(z),
        peak_abs_mag: d(-16.0),
        model_params: vec![Param { name: "mass".to_string(), value: d(z * 2.0) }],
    }
}

fn observation(mjd: f64, depth: f64) -> SurveyObservation {
    SurveyObservation {
        obs_id: 0,
        ra: d(10.0),
        dec: d(20.0),
        mjd: d(mjd),
        band: "g".to_string(),
        five_sigma_depth: d(depth),
        seeing_fwhm: d(0.8),
        exposure_time: d(30.0),
        airmass: d(1.1),
        sky_brightness: d(21.0),
        night: 0,
    }
}

fn fetch(index: usize) -> SurveyObservation {
    if index == 99 {
        observation(f64::NAN, 24.0)
    } else {
        observation(T_EXP - 1.0 + index as f64 * 0.5, 24.0)
    }
}

fn elapsed(t: Double, start: Double) -> Double {
    d(f(t) - f(start))
}

fn seeds(t_exp: Double, z: Double) -> (u64, u64) {
    ((f(t_exp) * 1000.0) as u64, (f(z) * 1e6) as u64)
}

fn average(bin: &BinSummary) -> StackedValues {
    let n = bin.members.len() as f64;
    StackedValues {
        mjd: d(bin.mjds.iter().fold(0.0, |sum, t| sum + f(*t)) / n),
        magnitude: bin.usable_mags.first().copied().unwrap_or(d(99.0)),
        depth: bin.upper_depth,
        exposure_time: bin.exposure_time,
    }
}

fn measure(depth: Double, mag: Double) -> (Double, Double) {
    let snr = 5.0 * 10f64.powf(0.4 * (f(depth) - f(mag)));
    (d(snr), d(1.0857362 / snr))
}

fn perturb(mag: Double, _err: Double, _u: u64, _v: u64) -> Double {
    mag
}

/// Bright transients have magnitude 20, faint ones 25; those at redshift 0.75 have no lightcurve.
fn model_mag(z: f64) -> f64 {
    if z < 0.5 {
        20.0
    } else {
        25.0
    }
}

fn generated(kind: PopulationKind) -> PopulationInput {
    let (name, zs) = match kind {
        PopulationKind::Kilonova => ("Kilonova", vec![0.1, 0.6, 0.2, 0.75]),
        PopulationKind::SupernovaIa => ("SNIa", vec![0.3, 0.4]),
        _ => ("TDE", vec![0.25]),
    };
    PopulationInput {
        transient_type: name.to_string(),
        volumetric_rate: d(100.0),
        instances: zs.into_iter().map(instance).collect(),
    }
}

fn objects(places: &[usize]) -> Vec<Vec<bool>> {
    places.iter().map(|p| (0..11).map(|i| i == *p).collect()).collect()
}

fn pipeline(windows: Option<Vec<f64>>) -> PySimulationPipeline {
    PySimulationPipeline::new(
        vec!["Kilonova".to_string(), "SNIa".to_string()],
        SelectionCuts { min_galactic_lat: d(0.0), completeness_k: d(0.0) },
        10,
        42,
        windows.map(|list| list.into_iter().map(d).collect()),
        d(100.0),
    )
}

fn run_with(
    pipeline: &PySimulationPipeline,
    places: &[usize],
    include_undetected: bool,
    queries: &dyn Fn(usize) -> Vec<usize>,
) -> Result<PySimulationResult, RunError<String>> {
    let build = |_: usize, kind: PopulationKind| {
        if kind == PopulationKind::Grb {
            Err("no jet".to_string())
        } else {
            Ok(kind)
        }
    };
    let first_word = SmallRng::seed_from_u64(42).random::<u64>();
    let generate = |mut rng: SmallRng, kind: &PopulationKind, n: usize| {
        assert_eq!(n, 10);
        let mut input = generated(*kind);
        let word = rng.random::<u64>();
        if *kind == PopulationKind::Kilonova {
            assert_eq!(word, first_word);
        }
        input.volumetric_rate = d((word >> 40) as f64);
        (input, rng)
    };
    let days = |s: Double| d(f(s) / 86400.0);
    let query = |input: &PopulationInput, window: Double| {
        assert_eq!(f(window), 100.0);
        (0..input.instances.len()).map(queries).collect::<Vec<Vec<usize>>>()
    };
    let evaluate = |input: &PopulationInput, model: usize, sightings: &Vec<Sighting>| {
        let expected: usize = if input.transient_type == "Kilonova" { 0 } else { 1 };
        assert_eq!(model, expected);
        sightings
            .iter()
            .map(|s| {
                let z = f(input.instances[s.instance].z);
                if z == 0.75 {
                    return None;
                }
                let mut apparent_mags = MagTable::new();
                let row: Vec<Double> = s.observations.iter().map(|_| d(model_mag(z))).collect();
                apparent_mags.extend(&"g".to_string(), &row);
                let times_mjd = s.observations.iter().map(|o| o.mjd).collect();
                Some(LightcurveEvaluation { apparent_mags, times_mjd })
            })
            .collect::<Vec<Option<LightcurveEvaluation>>>()
    };
    let detect = |input: &PopulationInput, measured: &Vec<Measured>| {
        measured
            .iter()
            .map(|m| Verdict {
                detected: model_mag(f(input.instances[m.instance].z)) < 24.0,
                galactic_lat: d(45.0),
                hash: d(0.0),
                completeness: None,
            })
            .collect::<Vec<Verdict>>()
    };
    let integrate = |input: &PopulationInput,
                     asked: usize,
                     flags: &Vec<bool>,
                     n_detected: usize,
                     z_max: Double| {
        assert_eq!(flags.len(), input.instances.len());
        assert_eq!(flags.iter().filter(|flag| **flag).count(), n_detected);
        Rates {
            detections_per_year: d(n_detected as f64),
            detections_total: d(n_detected as f64 * 2.0),
            overall_efficiency: d(n_detected as f64 / asked as f64),
            survey_omega_sr: d(flags.len() as f64),
            effective_vt_gpc3_yr: z_max,
        }
    };
    pipeline.run(
        include_undetected,
        d(2.0),
        &objects(places),
        &build,
        &generate,
        &days,
        &query,
        &evaluate,
        &fetch,
        &elapsed,
        &average,
        &detect,
        &integrate,
        &seeds,
        &measure,
        &perturb,
    )
}

fn four_exposures(_instance: usize) -> Vec<usize> {
    vec![0, 2, 3, 4]
}

#[test]
fn a_run_reports_detected_sources() {
    let result = run_with(&pipeline(None), &[0], false, &four_exposures).unwrap();
    assert_eq!((result.n_simulated, result.n_detected, result.n_undetected), (10, 2, 0));
    assert_eq!(result.rate_summaries.len(), 1);
    let rate = &result.rate_summaries[0];
    assert_eq!((rate.n_simulated, rate.n_detected), (10, 2));
    assert_eq!(f(rate.overall_efficiency), 0.2);
    assert_eq!(f(rate.z_max), 0.75);
    assert_eq!(f(rate.survey_omega_sr), 4.0);
    assert_eq!(f(rate.effective_vt_gpc3_yr), 0.75);
    assert_eq!(f(rate.survey_duration_years), 2.0);
    let zs: Vec<f64> = result.detected_sources.iter().map(|s| f(s.z)).collect();
    assert_eq!(zs, vec![0.1, 0.2]);
    let source = &result.detected_sources[0];
    assert_eq!(source.transient_type, "Kilonova");
    assert_eq!(source.true_params[0].value, d(0.2));
    assert_eq!(source.photometry.len(), 3);
    assert_eq!(source.non_detections.len(), 1);
    assert_eq!(f(source.non_detections[0].mjd), T_EXP - 1.0);
    assert!(result.undetected_sources.is_empty());
}

#[test]
fn undetected_sources_come_on_request() {
    let result = run_with(&pipeline(None), &[0], true, &four_exposures).unwrap();
    assert_eq!(result.n_undetected, 1);
    let source = &result.undetected_sources[0];
    assert_eq!(f(source.z), 0.6);
    assert_eq!(source.photometry.len(), 3);
    assert_eq!(source.non_detections.len(), 4);
}

#[test]
fn detected_sources_need_photometry_and_others_a_limit() {
    let early = |_: usize| vec![0, 1];
    let result = run_with(&pipeline(None), &[0], true, &early).unwrap();
    assert_eq!(result.n_detected, 2);
    assert!(result.detected_sources.is_empty());
    assert_eq!(result.n_undetected, 1);
    assert_eq!(result.undetected_sources[0].photometry.len(), 0);
    assert_eq!(result.undetected_sources[0].non_detections.len(), 2);
}

#[test]
fn populations_without_a_model_are_passed_over() {
    let result = run_with(&pipeline(None), &[0, 6, 4], false, &four_exposures).unwrap();
    let types: Vec<&str> =
        result.rate_summaries.iter().map(|r| r.transient_type.as_str()).collect();
    assert_eq!(types, vec!["Kilonova", "SNIa"]);
    assert_eq!((result.n_simulated, result.n_detected), (20, 4));
    let total: usize = result.rate_summaries.iter().map(|r| r.n_detected).sum();
    assert_eq!(total, result.n_detected);
    assert_eq!(result.n_sources(), 4);
}

#[test]
fn transients_that_no_exposure_covers_are_not_detected() {
    let first_only =
        |instance: usize| if instance == 0 { vec![2, 3] } else { vec![] };
    let result = run_with(&pipeline(None), &[0], true, &first_only).unwrap();
    assert_eq!((result.n_detected, result.n_undetected), (1, 0));
    assert_eq!(f(result.rate_summaries[0].survey_omega_sr), 4.0);
}

#[test]
fn windows_are_given_in_seconds() {
    let half_day = pipeline(Some(vec![43201.0]));
    let result = run_with(&half_day, &[4], false, &|_| vec![2, 3, 4]).unwrap();
    let times: Vec<f64> =
        result.detected_sources[0].photometry.iter().map(|p| f(p.mjd)).collect();
    assert_eq!(times, vec![T_EXP + 0.25, T_EXP + 1.0]);
    let both = pipeline(Some(vec![43201.0, 10.0]));
    let result = run_with(&both, &[4], false, &|_| vec![2, 3, 4]).unwrap();
    assert_eq!(result.detected_sources[0].photometry.len(), 5);
    let none = pipeline(Some(vec![]));
    let result = run_with(&none, &[4], false, &|_| vec![2, 3, 4]).unwrap();
    assert_eq!(result.detected_sources[0].photometry.len(), 3);
}

#[test]
fn exposures_that_cannot_be_ordered_stop_a_stacked_run() {
    let broken = |_: usize| vec![99, 2];
    let stacked = run_with(&pipeline(Some(vec![60.0])), &[4], false, &broken);
    assert!(matches!(stacked, Err(RunError::Incomparable)));
    assert!(run_with(&pipeline(None), &[4], false, &broken).is_ok());
}

#[test]
fn populations_that_cannot_be_built_stop_a_run() {
    let refused = run_with(&pipeline(None), &[0, 50], false, &four_exposures);
    assert!(matches!(
        refused,
        Err(RunError::Build(BuildError::Refused(PipelineError::UnsupportedPopulation)))
    ));
    let rejected = run_with(&pipeline(None), &[8, 50], false, &four_exposures);
    assert!(matches!(
        rejected,
        Err(RunError::Build(BuildError::Rejected(reason))) if reason == "no jet"
    ));
}

#[test]
fn a_run_without_populations_is_empty() {
    let result = run_with(&pipeline(None), &[], true, &four_exposures).unwrap();
    assert_eq!((result.n_simulated, result.n_detected, result.n_undetected), (0, 0, 0));
    assert!(result.rate_summaries.is_empty());
    assert!(result.detected_sources.is_empty());
}

#[test]
fn populations_are_drawn_in_order_from_one_generator() {
    let result = run_with(&pipeline(None), &[0, 6, 4], false, &four_exposures).unwrap();
    let mut rng = SmallRng::seed_from_u64(42);
    let words: Vec<f64> = (0..3).map(|_| (rng.random::<u64>() >> 40) as f64).collect();
    let rates: Vec<f64> = result.rate_summaries.iter().map(|r| f(r.volumetric_rate)).collect();
    assert_eq!(rates, vec![words[0], words[2]]);
}

fn run_huge(places: &[usize]) -> Result<PySimulationResult, RunError<String>> {
    let mut huge = pipeline(None);
    huge.n_transients = usize::MAX;
    let build = |_: usize, kind: PopulationKind| Ok::<PopulationKind, String>(kind);
    let generate = |rng: SmallRng, kind: &PopulationKind, _: usize| (generated(*kind), rng);
    huge.run(
        false,
        d(2.0),
        &objects(places),
        &build,
        &generate,
        &|s: Double| s,
        &|input: &PopulationInput, _: Double| vec![vec![]; input.instances.len()],
        &|_: &PopulationInput, _: usize, _: &Vec<Sighting>| vec![],
        &fetch,
        &elapsed,
        &average,
        &|_: &PopulationInput, _: &Vec<Measured>| vec![],
        &|_: &PopulationInput, _: usize, _: &Vec<bool>, _: usize, _: Double| Rates {
            detections_per_year: d(0.0),
            detections_total: d(0.0),
            overall_efficiency: d(0.0),
            survey_omega_sr: d(0.0),
            effective_vt_gpc3_yr: d(0.0),
        },
        &seeds,
        &measure,
        &perturb,
    )
}

#[test]
fn transients_that_cannot_be_counted_stop_a_run() {
    assert!(matches!(run_huge(&[0, 4]), Err(RunError::Uncountable)));
}

#[test]
fn populations_without_a_model_are_not_counted() {
    let result = run_huge(&[6, 0, 6]).unwrap();
    assert_eq!(result.n_simulated, usize::MAX);
    assert_eq!(result.n_detected, 0);
}

#[test]
fn asking_for_undetected_sources_changes_nothing_else() {
    let without = run_with(&pipeline(None), &[0, 4], false, &four_exposures).unwrap();
    let with = run_with(&pipeline(None), &[0, 4], true, &four_exposures).unwrap();
    assert_eq!(with.n_detected, without.n_detected);
    assert_eq!(with.n_simulated, without.n_simulated);
    assert_eq!(format!("{:?}", with.rate_summaries), format!("{:?}", without.rate_summaries));
    assert_eq!(format!("{:?}", with.detected_sources), format!("{:?}", without.detected_sources));
    assert_eq!((with.n_undetected, without.n_undetected), (1, 0));
}

#[test]
fn no_windows_stack_nothing() {
    let none = run_with(&pipeline(None), &[0, 4], true, &four_exposures).unwrap();
    let empty = run_with(&pipeline(Some(vec![])), &[0, 4], true, &four_exposures).unwrap();
    assert_eq!(format!("{:?}", none), format!("{:?}", empty));
}

#[test]
fn taking_away_a_model_takes_out_its_type() {
    let both = run_with(&pipeline(None), &[0, 4], true, &four_exposures).unwrap();
    let mut one = pipeline(None);
    one.model_names.pop();
    let rest = run_with(&one, &[0, 4], true, &four_exposures).unwrap();
    assert_eq!(rest.n_simulated, both.n_simulated - 10);
    assert_eq!(rest.rate_summaries.len(), 1);
    assert_eq!(
        format!("{:?}", rest.rate_summaries[0]),
        format!("{:?}", both.rate_summaries[0])
    );
    let kept: Vec<String> = both
        .detected_sources
        .iter()
        .filter(|s| s.transient_type != "SNIa")
        .map(|s| format!("{:?}", s))
        .collect();
    let found: Vec<String> = rest.detected_sources.iter().map(|s| format!("{:?}", s)).collect();
    assert_eq!(found, kept);
}
