use survey_pipeline::dispatch::PipelineError;
use survey_pipeline::double::Double;
use survey_pipeline::photometry::{PhotometryPoint, UpperLimit};
use survey_pipeline::pipeline::{PipelineResult, RateSummary, TypeExtras};
use survey_pipeline::results::{PyRateSummary, PySimulationResult};
use survey_pipeline::sources::{Param, PyDetectedSource};

fn d(x: f64) -> Double {
    Double { bits: x.to_bits() }
}

fn f(x: Double) -> f64 {
    f64::from_bits(x.bits)
}

fn scientific(x: Double) -> String {
    format!("{:.3e}", f(x))
}

fn fixed(x: Double, decimals: usize) -> String {
    format!("{:.*}", decimals, f(x))
}

fn percent(x: Double) -> String {
    format!("{:.0}", f(x) * 100.0)
}

fn ratio(n: usize, of: usize) -> String {
    format!("{:.4}", n as f64 / of as f64)
}

fn source(bands: &[&str]) -> PyDetectedSource {
    PyDetectedSource {
        true_params: vec![Param { name: "mass".to_string(), value: d(0.03) }],
        z: d(0.0456),
        peak_abs_mag: d(-16.0),
        t_exp: d(60000.0),
        transient_type: "Kilonova".to_string(),
        photometry: bands
            .iter()
            .enumerate()
            .map(|(i, b)| PhotometryPoint {
                mjd: d(60001.0 + i as f64),
                mag: d(20.0 + i as f64),
                mag_err: d(0.1),
                band: b.to_string(),
            })
            .collect(),
        non_detections: vec![UpperLimit { mjd: d(59999.0), depth: d(24.0), band: "g".to_string() }],
    }
}

fn summary() -> RateSummary {
    RateSummary {
        transient_type: "Kilonova".to_string(),
        volumetric_rate: d(320.0),
        detections_per_year: d(1.5),
        detections_total: d(15.0),
        overall_efficiency: d(0.25),
        survey_omega_sr: d(6.0),
        z_max: d(0.2),
    }
}

fn pipeline_result(undetected: usize) -> PipelineResult {
    PipelineResult {
        n_simulated: 8,
        n_detected: 2,
        n_undetected: undetected,
        rate_summaries: vec![summary()],
        per_type_extras: vec![TypeExtras {
            n_simulated: 8,
            n_detected: 2,
            effective_vt_gpc3_yr: d(0.046875),
        }],
        detected_sources: vec![source(&["r", "g", "r"])],
        undetected_sources: (0..undetected).map(|_| source(&[])).collect(),
    }
}

fn shown(undetected: usize) -> PySimulationResult {
    PySimulationResult::from_pipeline(pipeline_result(undetected), d(10.0))
}

#[test]
fn results_show_what_a_run_gave() {
    let result = shown(3);
    assert_eq!((result.n_simulated, result.n_detected, result.n_undetected), (8, 2, 3));
    assert_eq!(result.rate_summaries.len(), 1);
    let rate = &result.rate_summaries[0];
    assert_eq!(rate.transient_type, "Kilonova");
    assert_eq!(f(rate.volumetric_rate), 320.0);
    assert_eq!(f(rate.detections_per_year), 1.5);
    assert_eq!(f(rate.detections_total), 15.0);
    assert_eq!(f(rate.overall_efficiency), 0.25);
    assert_eq!((rate.n_simulated, rate.n_detected), (8, 2));
    assert_eq!(f(rate.z_max), 0.2);
    assert_eq!(f(rate.survey_omega_sr), 6.0);
    assert_eq!(f(rate.survey_duration_years), 10.0);
    assert_eq!(f(rate.effective_vt_gpc3_yr), 0.046875);
    assert_eq!(result.undetected_sources.len(), 3);
}

#[test]
fn missing_counts_are_zero() {
    let mut run = pipeline_result(0);
    run.per_type_extras.clear();
    let result = PySimulationResult::from_pipeline(run, d(10.0));
    let rate = &result.rate_summaries[0];
    assert_eq!((rate.n_simulated, rate.n_detected), (0, 0));
    assert_eq!(f(rate.effective_vt_gpc3_yr), 0.0);
}

#[test]
fn sources_are_copied_out() {
    let result = shown(0);
    assert_eq!(result.n_sources(), 1);
    let copy = result.get_source(0).unwrap();
    assert_eq!(copy.true_params[0].name, "mass");
    assert_eq!(copy.photometry.len(), 3);
    assert_eq!(copy.non_detections.len(), 1);
    assert_eq!(result.sources().len(), 1);
    let refusal = result.get_source(1).unwrap_err();
    assert!(matches!(refusal, PipelineError::SourceIndexOutOfRange));
}

#[test]
fn sources_have_columns() {
    let one = source(&["r", "g"]);
    assert_eq!((one.n_obs(), one.n_non_detections()), (2, 1));
    let columns = one.photometry();
    assert_eq!(columns.times, vec![d(60001.0), d(60002.0)]);
    assert_eq!(columns.mags, vec![d(20.0), d(21.0)]);
    assert_eq!(columns.mag_errs, vec![d(0.1), d(0.1)]);
    assert_eq!(columns.bands, vec!["r".to_string(), "g".to_string()]);
    let limits = one.non_detections();
    assert_eq!(limits.times, vec![d(59999.0)]);
    assert_eq!(limits.depths, vec![d(24.0)]);
    assert_eq!(limits.bands, vec!["g".to_string()]);
}

#[test]
fn results_have_one_line() {
    assert_eq!(
        shown(0).__repr__(&ratio),
        "SimulationResult(n_simulated=8, n_detected=2, efficiency=0.2500, sources=1)"
    );
    assert_eq!(
        shown(3).__repr__(&ratio),
        "SimulationResult(n_simulated=8, n_detected=2, n_undetected=3, efficiency=0.2500, sources=1)"
    );
    let mut empty = shown(0);
    empty.n_simulated = 0;
    empty.n_detected = 0;
    assert_eq!(
        empty.__repr__(&ratio),
        "SimulationResult(n_simulated=0, n_detected=0, efficiency=0.0000, sources=1)"
    );
}

#[test]
fn results_have_a_report() {
    assert_eq!(
        shown(3).__str__(&ratio, &scientific, &fixed),
        "SimulationResult\n  n_simulated: 8\n  n_detected:  2\n  n_undetected: 3\n  efficiency:  0.2500\n  sources:     1\n  rate_summaries:\n    Kilonova : rate=3.200e2 Gpc^-3/yr, eff=0.2500, det/yr=1.500e0, det_total=1.500e1 (T=10.00 yr, omega=6.000e0 sr)\n"
    );
    let mut bare = shown(0);
    bare.rate_summaries.clear();
    assert_eq!(
        bare.__str__(&ratio, &scientific, &fixed),
        "SimulationResult\n  n_simulated: 8\n  n_detected:  2\n  efficiency:  0.2500\n  sources:     1\n"
    );
}

#[test]
fn rates_have_one_line() {
    assert_eq!(
        shown(0).rate_summaries[0].__repr__(&scientific, &fixed),
        "RateSummary(type=Kilonova, rate=3.200e2 Gpc^-3/yr, n_sim=8, n_det=2, eff=0.2500, det/yr=1.500e0, det_total=1.500e1, z_max=0.20, omega_sr=6.000e0, T=10.00 yr, VT_eff=4.688e-2 Gpc^3 yr)"
    );
}

#[test]
fn source_lines_list_bands_once() {
    assert_eq!(
        source(&["r", "g", "r"]).__repr__(&fixed),
        "DetectedSource(type=Kilonova, z=0.046, n_obs=3, bands=g,r)"
    );
    assert_eq!(
        source(&[]).__repr__(&fixed),
        "DetectedSource(type=Kilonova, z=0.046, n_obs=0, bands=)"
    );
}

fn poisson(n: u64, level: Double) -> Double {
    d(n as f64 - (1.0 - f(level)).ln())
}

fn divide(a: Double, b: Double) -> Double {
    d(f(a) / f(b))
}

#[test]
fn upper_limits_divide_by_the_volume_time() {
    let result = shown(0);
    let rate: &PyRateSummary = &result.rate_summaries[0];
    let limit = rate.upper_limit(d(0.9), 0, &poisson, &divide);
    assert_eq!(limit.transient_type, "Kilonova");
    assert_eq!(limit.n_observed, 0);
    assert_eq!(f(limit.n_upper), -(1.0f64 - 0.9).ln());
    assert_eq!(f(limit.rate_upper), -(1.0f64 - 0.9).ln() / 0.046875);
    assert_eq!(f(limit.survey_duration_years), 10.0);
    assert_eq!(f(limit.survey_omega_sr), 6.0);
    assert_eq!(
        limit.__repr__(&scientific, &fixed, &percent),
        "RateUpperLimit(type=Kilonova, N=0, CL=90%, R_upper=4.912e1 Gpc^-3/yr, N_upper=2.303, VT_eff=4.688e-2 Gpc^3 yr)"
    );
}

#[test]
fn upper_limits_without_volume_time_are_infinite() {
    let mut result = shown(0);
    for vt in [0.0, -0.0, -1.0, f64::NAN] {
        result.rate_summaries[0].effective_vt_gpc3_yr = d(vt);
        let limit = result.rate_summaries[0].upper_limit(d(0.9), 2, &poisson, &divide);
        assert_eq!(f(limit.rate_upper), f64::INFINITY);
        assert_eq!(f(limit.n_upper), 2.0 - (1.0f64 - 0.9).ln());
    }
}

#[test]
fn upper_limits_do_not_depend_on_what_was_simulated() {
    let result = shown(0);
    let one = result.rate_summaries[0].clone();
    let mut other = one.clone();
    other.n_simulated = 1000;
    other.n_detected = 999;
    other.volumetric_rate = d(1.0);
    other.detections_total = d(7.0);
    let a = one.upper_limit(d(0.9), 1, &poisson, &divide);
    let b = other.upper_limit(d(0.9), 1, &poisson, &divide);
    assert_eq!(format!("{:?}", a), format!("{:?}", b.clone()));
}
