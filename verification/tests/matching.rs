use survey_pipeline::double::Double;
use survey_pipeline::matching::{
    apply_cuts, count_detected, detection_flags, evaluation_path, fetch_sightings, judge,
    keep_evaluated, match_instances, max_redshift, EvaluationPath, SelectionCuts, Sighting, Verdict,
};
use survey_pipeline::survey::{LightcurveEvaluation, MagTable, SurveyObservation};

fn d(x: f64) -> Double {
    Double { bits: x.to_bits() }
}

fn verdict(detected: bool, lat: f64, hash: f64, completeness: Option<f64>) -> Verdict {
    Verdict { detected, galactic_lat: d(lat), hash: d(hash), completeness: completeness.map(d) }
}

fn cuts(lat: f64, k: f64) -> SelectionCuts {
    SelectionCuts { min_galactic_lat: d(lat), completeness_k: d(k) }
}

#[test]
fn transients_without_exposures_are_dropped() {
    let queries = vec![vec![], vec![4, 2], vec![], vec![7]];
    let matched = match_instances(&queries);
    let found: Vec<(usize, Vec<usize>)> =
        matched.into_iter().map(|m| (m.instance, m.observations)).collect();
    assert_eq!(found, vec![(1, vec![4, 2]), (3, vec![7])]);
}

fn fetch(index: usize) -> SurveyObservation {
    SurveyObservation {
        obs_id: index as u64,
        ra: d(0.0),
        dec: d(0.0),
        mjd: d(index as f64),
        band: "g".to_string(),
        five_sigma_depth: d(24.0),
        seeing_fwhm: d(0.8),
        exposure_time: d(30.0),
        airmass: d(1.1),
        sky_brightness: d(21.0),
        night: 0,
    }
}

fn sightings(queries: Vec<Vec<usize>>) -> Vec<Sighting> {
    fetch_sightings(&match_instances(&queries), &fetch)
}

fn ids(list: &[SurveyObservation]) -> Vec<u64> {
    list.iter().map(|o| o.obs_id).collect()
}

#[test]
fn exposures_are_fetched_by_index() {
    let found = sightings(vec![vec![5, 3], vec![], vec![8]]);
    assert_eq!(found.len(), 2);
    assert_eq!((found[0].instance, ids(&found[0].observations)), (0, vec![5, 3]));
    assert_eq!((found[1].instance, ids(&found[1].observations)), (2, vec![8]));
}

#[test]
fn transients_without_a_lightcurve_are_dropped() {
    let seen = sightings(vec![vec![1], vec![2], vec![3]]);
    let eval = |t: f64| LightcurveEvaluation {
        apparent_mags: MagTable::new(),
        times_mjd: vec![d(t)],
    };
    let evaluated = keep_evaluated(&seen, vec![Some(eval(1.0)), None, Some(eval(3.0))]);
    let found: Vec<(usize, Vec<u64>, Vec<Double>)> = evaluated
        .into_iter()
        .map(|e| (e.instance, ids(&e.observations), e.eval.times_mjd))
        .collect();
    assert_eq!(found, vec![(0, vec![1], vec![d(1.0)]), (2, vec![3], vec![d(3.0)])]);
    assert_eq!(keep_evaluated(&seen, vec![Some(eval(1.0))]).len(), 1);
    let long = keep_evaluated(&sightings(vec![vec![1]]), vec![Some(eval(1.0)), Some(eval(2.0))]);
    assert_eq!(long.len(), 1);
}

#[test]
fn batches_come_before_the_interpreter_lock() {
    assert_eq!(evaluation_path(true, true), EvaluationPath::Batch);
    assert_eq!(evaluation_path(true, false), EvaluationPath::Batch);
    assert_eq!(evaluation_path(false, true), EvaluationPath::Sequential);
    assert_eq!(evaluation_path(false, false), EvaluationPath::Parallel);
}

#[test]
fn the_galactic_plane_is_cut_out() {
    let near = verdict(true, -5.0, 0.0, None);
    assert!(!apply_cuts(&cuts(10.0, 0.0), &near));
    assert!(apply_cuts(&cuts(5.0, 0.0), &near));
    assert!(apply_cuts(&cuts(0.0, 0.0), &near));
    assert!(apply_cuts(&cuts(-1.0, 0.0), &near));
    assert!(apply_cuts(&cuts(10.0, 0.0), &verdict(true, -10.5, 0.0, None)));
    assert!(apply_cuts(&cuts(10.0, 0.0), &verdict(true, f64::NAN, 0.0, None)));
}

#[test]
fn spectra_are_incomplete() {
    assert!(!apply_cuts(&cuts(0.0, 1.0), &verdict(true, 50.0, 0.7, Some(0.5))));
    assert!(apply_cuts(&cuts(0.0, 1.0), &verdict(true, 50.0, 0.5, Some(0.5))));
    assert!(apply_cuts(&cuts(0.0, 1.0), &verdict(true, 50.0, 0.7, None)));
    assert!(apply_cuts(&cuts(0.0, 0.0), &verdict(true, 50.0, 0.7, Some(0.5))));
}

#[test]
fn cuts_detect_nothing_by_themselves() {
    assert!(!apply_cuts(&cuts(0.0, 0.0), &verdict(false, 50.0, 0.0, Some(1.0))));
    let list = vec![verdict(false, 50.0, 0.0, None), verdict(true, 50.0, 0.0, None)];
    assert_eq!(judge(&cuts(10.0, 1.0), &list), vec![false, true]);
    assert_eq!(count_detected(&vec![true, false, true]), 2);
}

#[test]
fn every_generated_transient_gets_its_flag() {
    let flags = detection_flags(5, &vec![1, 3, 4], &vec![true, false, true]);
    assert_eq!(flags, vec![false, true, false, false, true]);
    assert_eq!(count_detected(&flags), 2);
    assert_eq!(detection_flags(2, &vec![0, 0], &vec![true, false]), vec![false, false]);
    assert_eq!(detection_flags(1, &vec![6], &vec![true]), vec![false]);
}

#[test]
fn the_largest_redshift_starts_at_zero() {
    assert_eq!(max_redshift(&vec![d(0.25), d(f64::NAN), d(1.5), d(0.5)]), d(1.5));
    assert_eq!(max_redshift(&vec![d(-1.0)]), d(0.0));
    assert_eq!(max_redshift(&vec![]), d(0.0));
}
