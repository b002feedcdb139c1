use rand::rngs::SmallRng;
use rand::{Rng, SeedableRng};
use survey_pipeline::double::Double;
use survey_pipeline::photometry::{
    build_photometry_from_eval, model_reading, record_observation, Photometry, Trial,
};
use survey_pipeline::survey::{LightcurveEvaluation, MagTable, SurveyObservation};

fn d(x: f64) -> Double {
    Double { bits: x.to_bits() }
}

fn f(x: Double) -> f64 {
    f64::from_bits(x.bits)
}

fn exposure(mjd: f64, band: &str, depth: f64) -> SurveyObservation {
    SurveyObservation {
        obs_id: 0,
        ra: d(10.0),
        dec: d(-5.0),
        mjd: d(mjd),
        band: band.to_string(),
        five_sigma_depth: d(depth),
        seeing_fwhm: d(0.8),
        exposure_time: d(30.0),
        airmass: d(1.1),
        sky_brightness: d(21.0),
        night: 0,
    }
}

fn evaluation(rows: &[(&str, &[f64])]) -> LightcurveEvaluation {
    let mut apparent_mags = MagTable::new();
    for (band, mags) in rows {
        let list: Vec<Double> = mags.iter().map(|x| d(*x)).collect();
        apparent_mags.extend(&band.to_string(), &list);
    }
    LightcurveEvaluation { apparent_mags, times_mjd: vec![] }
}

fn snr_of(depth: f64, mag: f64) -> f64 {
    5.0 * 10f64.powf(0.4 * (depth - mag))
}

fn measure(depth: Double, mag: Double) -> (Double, Double) {
    let snr = snr_of(f(depth), f(mag));
    (d(snr), d(1.0857362 / snr))
}

fn noisy(mag: f64, err: f64, u1: f64, u2: f64) -> f64 {
    let gauss = (-2.0f64 * u1.max(1e-10).ln()).sqrt() * (2.0 * std::f64::consts::PI * u2).cos();
    mag + err * gauss
}

fn perturb(mag: Double, err: Double, u: u64, v: u64) -> Double {
    let scale = 1.0 / (1u64 << 53) as f64;
    d(noisy(f(mag), f(err), u as f64 * scale, v as f64 * scale))
}

fn seeds(t_exp: Double, z: Double) -> (u64, u64) {
    ((f(t_exp) * 1000.0) as u64, (f(z) * 1e6) as u64)
}

fn build(
    eval: &LightcurveEvaluation,
    obs: &Vec<SurveyObservation>,
    t_exp: f64,
    z: f64,
    keep: bool,
) -> Photometry {
    build_photometry_from_eval(eval, obs, d(t_exp), d(z), keep, &seeds, &measure, &perturb)
}

#[test]
fn noise_is_drawn_from_the_seeded_generator() {
    let obs: Vec<SurveyObservation> =
        (0..6).map(|i| exposure(60001.0 + i as f64, "g", 24.0)).collect();
    let model = [20.0, 25.0, 21.0, 22.0, 26.0, 23.0];
    let eval = evaluation(&[("g", &model)]);
    let photometry = build(&eval, &obs, 60000.5, 0.125, false);
    let mut rng = SmallRng::seed_from_u64((60000.5f64 * 1000.0) as u64 ^ (0.125f64 * 1e6) as u64);
    let mut points: Vec<(f64, f64, f64)> = Vec::new();
    let mut limits: Vec<f64> = Vec::new();
    for (i, mag) in model.iter().enumerate() {
        let mjd = 60001.0 + i as f64;
        let snr = snr_of(24.0, *mag);
        if snr >= 5.0 {
            let err = 1.0857362 / snr;
            let u1: f64 = rng.random::<f64>();
            let u2: f64 = rng.random::<f64>();
            points.push((mjd, noisy(*mag, err, u1, u2), err));
        } else {
            limits.push(mjd);
        }
    }
    let found: Vec<(f64, f64, f64)> =
        photometry.points.iter().map(|p| (f(p.mjd), f(p.mag), f(p.mag_err))).collect();
    assert_eq!(found, points);
    assert_eq!(points.len(), 4);
    let found: Vec<f64> = photometry.limits.iter().map(|l| f(l.mjd)).collect();
    assert_eq!(found, limits);
    assert!(photometry.points.iter().all(|p| p.band == "g"));
    assert!(found.iter().all(|t| *t == 60002.0 || *t == 60005.0));
}

#[test]
fn kept_measurements_use_the_same_words() {
    let obs: Vec<SurveyObservation> =
        (0..4).map(|i| exposure(60001.0 + i as f64, "g", 24.0)).collect();
    let model = [24.5, 20.0, 25.0, 21.0];
    let eval = evaluation(&[("g", &model)]);
    let photometry = build(&eval, &obs, 60000.0, 0.5, true);
    let mut rng = SmallRng::seed_from_u64(60000000u64 ^ 500000u64);
    let mut points: Vec<f64> = Vec::new();
    for mag in model {
        let err = 1.0857362 / snr_of(24.0, mag);
        let u1: f64 = rng.random::<f64>();
        let u2: f64 = rng.random::<f64>();
        let observed = noisy(mag, err, u1, u2);
        if snr_of(24.0, mag) >= 5.0 || !(observed < 0.0 || observed > 30.0) {
            points.push(observed);
        }
    }
    let found: Vec<f64> = photometry.points.iter().map(|p| f(p.mag)).collect();
    assert_eq!(found, points);
    assert_eq!(photometry.limits.len(), 2);
}

#[test]
fn photometry_repeats_and_follows_its_seed() {
    let obs = vec![exposure(60001.0, "g", 24.0), exposure(60002.0, "g", 24.0)];
    let eval = evaluation(&[("g", &[20.0, 20.0])]);
    let a = build(&eval, &obs, 60000.0, 0.1, false);
    let b = build(&eval, &obs, 60000.0, 0.1, false);
    let c = build(&eval, &obs, 60000.0, 0.2, false);
    assert_eq!(a.points[0].mag, b.points[0].mag);
    assert_eq!(a.points[1].mag, b.points[1].mag);
    assert_ne!(a.points[0].mag, c.points[0].mag);
    assert_ne!(a.points[0].mag, a.points[1].mag);
}

#[test]
fn exposures_before_the_explosion_give_upper_limits() {
    let obs = vec![exposure(59999.0, "g", 24.0), exposure(60000.0, "g", 23.5)];
    let eval = evaluation(&[("g", &[20.0, 20.0])]);
    let photometry = build(&eval, &obs, 60000.0, 0.1, false);
    assert_eq!(photometry.points.len(), 1);
    assert_eq!(f(photometry.points[0].mjd), 60000.0);
    assert_eq!(photometry.limits.len(), 1);
    assert_eq!(f(photometry.limits[0].depth), 24.0);
    assert_eq!(photometry.limits[0].band, "g");
}

#[test]
fn magnitudes_are_read_by_exposure_and_band() {
    let obs = vec![
        exposure(10.0, "g", 24.0),
        exposure(11.0, "r", 24.0),
        exposure(12.0, "i", 24.0),
        exposure(13.0, "r", 24.0),
        exposure(14.0, "g", 24.0),
        exposure(15.0, "g", 24.0),
        exposure(16.0, "g", 24.0),
        exposure(17.0, "g", 24.0),
    ];
    let eval = evaluation(&[
        ("g", &[20.0, 1.0, 1.0, 1.0, 90.0, 90.5, f64::NAN]),
        ("r", &[1.0, 21.0, 1.0]),
    ]);
    let read = |i: usize| model_reading(&eval, &obs, d(0.0), i).map(f);
    assert_eq!(read(0), Some(20.0));
    assert_eq!(read(1), Some(21.0));
    assert_eq!(read(2), None);
    assert_eq!(read(3), None);
    assert_eq!(read(4), Some(90.0));
    assert_eq!(read(5), None);
    assert_eq!(read(6), None);
    assert_eq!(read(7), None);
    assert_eq!(model_reading(&eval, &obs, d(10.5), 0), None);
    assert_eq!(model_reading(&eval, &obs, d(f64::NAN), 0).map(f), Some(20.0));
}

fn record(snr: f64, mag: f64, reading: Option<f64>, keep: bool) -> (usize, usize) {
    let mut photometry = Photometry { points: vec![], limits: vec![] };
    let trial = Trial { snr: d(snr), mag_err: d(0.1), observed_mag: d(mag) };
    record_observation(&mut photometry, &exposure(1.0, "g", 24.0), reading.map(d), trial, keep);
    (photometry.points.len(), photometry.limits.len())
}

#[test]
fn five_sigma_is_the_threshold() {
    assert_eq!(record(5.0, 20.0, Some(20.0), false), (1, 0));
    assert_eq!(record(4.999, 20.0, Some(20.0), false), (0, 1));
    assert_eq!(record(f64::NAN, 20.0, Some(20.0), false), (0, 1));
    assert_eq!(record(100.0, 20.0, None, false), (0, 1));
    assert_eq!(record(100.0, 20.0, None, true), (0, 1));
}

#[test]
fn kept_measurements_have_to_be_plausible() {
    assert_eq!(record(1.0, 25.0, Some(25.0), true), (1, 1));
    assert_eq!(record(1.0, 0.0, Some(25.0), true), (1, 1));
    assert_eq!(record(1.0, 30.0, Some(25.0), true), (1, 1));
    assert_eq!(record(1.0, -0.001, Some(25.0), true), (0, 1));
    assert_eq!(record(1.0, 30.001, Some(25.0), true), (0, 1));
    assert_eq!(record(1.0, f64::NAN, Some(25.0), true), (1, 1));
    assert_eq!(record(9.0, 31.0, Some(25.0), true), (1, 0));
}

#[test]
fn every_exposure_counts_and_limits_do_not_depend_on_keeping() {
    let obs: Vec<SurveyObservation> =
        (0..12).map(|i| exposure(60000.0 + i as f64, "g", 24.0)).collect();
    let model: Vec<f64> = (0..12).map(|i| 21.0 + 0.5 * i as f64).collect();
    let eval = evaluation(&[("g", &model)]);
    let strict = build(&eval, &obs, 60002.5, 0.1, false);
    let kept = build(&eval, &obs, 60002.5, 0.1, true);
    assert_eq!(strict.points.len() + strict.limits.len(), 12);
    assert!(kept.points.len() + kept.limits.len() >= 12);
    let a: Vec<f64> = strict.limits.iter().map(|l| f(l.mjd)).collect();
    let b: Vec<f64> = kept.limits.iter().map(|l| f(l.mjd)).collect();
    assert_eq!(a, b);
    assert!(kept.points.iter().all(|p| f(p.mjd) >= 60002.5));
}

#[test]
fn keeping_only_adds_points() {
    let obs: Vec<SurveyObservation> =
        (0..8).map(|i| exposure(60001.0 + i as f64, "g", 24.0)).collect();
    let model = [20.0, 24.5, 21.0, 25.0, 22.0, 24.25, 25.5, 23.0];
    let eval = evaluation(&[("g", &model)]);
    let strict = build(&eval, &obs, 60000.0, 0.1, false);
    let kept = build(&eval, &obs, 60000.0, 0.1, true);
    let entry = |p: &survey_pipeline::photometry::PhotometryPoint| (f(p.mjd), f(p.mag_err));
    let all: Vec<(f64, f64)> = kept.points.iter().map(entry).collect();
    let few: Vec<(f64, f64)> = strict.points.iter().map(entry).collect();
    let limits: Vec<f64> = kept.limits.iter().map(|l| f(l.mjd)).collect();
    let rest: Vec<(f64, f64)> =
        all.iter().copied().filter(|(mjd, _)| !limits.contains(mjd)).collect();
    assert_eq!(rest, few);
    assert!(all.len() > few.len());
}
