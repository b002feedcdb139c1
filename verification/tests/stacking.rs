use survey_pipeline::binning::{group_by_band, plan_bins, sequential_bins};
use survey_pipeline::double::Double;
use survey_pipeline::stacking::{
    stack_flux_average, summarize_bins, unstacked, BinSummary, StackedSeries, StackedValues,
};
use survey_pipeline::survey::{LightcurveEvaluation, MagTable, SurveyObservation};
use survey_pipeline::windows::{combine_windows, stack_multi_window};

fn d(x: f64) -> Double {
    Double { bits: x.to_bits() }
}

fn f(x: Double) -> f64 {
    f64::from_bits(x.bits)
}

fn exposure(id: u64, mjd: f64, band: &str, depth: f64) -> SurveyObservation {
    SurveyObservation {
        obs_id: id,
        ra: d(10.0 + id as f64),
        dec: d(-5.0),
        mjd: d(mjd),
        band: band.to_string(),
        five_sigma_depth: d(depth),
        seeing_fwhm: d(0.8),
        exposure_time: d(30.0),
        airmass: d(1.1),
        sky_brightness: d(21.0),
        night: 0,
    }
}

fn evaluation(rows: &[(&str, &[f64])], times: &[f64]) -> LightcurveEvaluation {
    let mut apparent_mags = MagTable::new();
    for (band, mags) in rows {
        let list: Vec<Double> = mags.iter().map(|x| d(*x)).collect();
        apparent_mags.extend(&band.to_string(), &list);
    }
    LightcurveEvaluation { apparent_mags, times_mjd: times.iter().map(|x| d(*x)).collect() }
}

fn elapsed(t: Double, start: Double) -> Double {
    d(f(t) - f(start))
}

fn average(bin: &BinSummary) -> StackedValues {
    let n = bin.members.len() as f64;
    let mjd = bin.mjds.iter().fold(0.0, |sum, t| sum + f(*t)) / n;
    let flux: f64 = bin.usable_mags.iter().fold(0.0, |sum, m| sum + 10f64.powf(-0.4 * f(*m)));
    StackedValues {
        mjd: d(mjd),
        magnitude: d(-2.5 * (flux / bin.usable_mags.len() as f64).log10()),
        depth: d((f(bin.lower_depth) + f(bin.upper_depth)) / 2.0 + 1.25 * n.log10()),
        exposure_time: d(f(bin.exposure_time) * n),
    }
}

fn mags(series: &StackedSeries, band: &str) -> Vec<f64> {
    let row = series.evaluation.apparent_mags.get(&band.to_string()).unwrap();
    row.iter().map(|x| f(*x)).collect()
}

fn times(series: &StackedSeries) -> Vec<f64> {
    series.evaluation.times_mjd.iter().map(|x| f(*x)).collect()
}

fn sample() -> (LightcurveEvaluation, Vec<SurveyObservation>) {
    let obs = vec![
        exposure(0, 60000.5, "g", 24.0),
        exposure(1, 60000.25, "g", 23.0),
        exposure(2, 60000.75, "r", 25.0),
        exposure(3, 60002.0, "g", 22.0),
        exposure(4, 60000.375, "i", 21.0),
    ];
    let eval = evaluation(
        &[("g", &[20.0, 20.0, 99.0, 95.0, 99.0]), ("r", &[99.0, 99.0, 19.0, 99.0, 99.0])],
        &[60000.5, 60000.25, 60000.75, 60002.0, 60000.375],
    );
    (eval, obs)
}

#[test]
fn groups_exposures_by_band() {
    let (_, obs) = sample();
    let groups = group_by_band(&obs);
    let found: Vec<(String, Vec<usize>)> =
        groups.into_iter().map(|g| (g.band, g.members)).collect();
    assert_eq!(
        found,
        vec![
            ("g".to_string(), vec![0, 1, 3]),
            ("r".to_string(), vec![2]),
            ("i".to_string(), vec![4]),
        ]
    );
}

#[test]
fn bins_are_measured_from_the_exposure_that_opens_them() {
    let obs: Vec<SurveyObservation> =
        [0.0, 0.5, 0.75, 1.25, 1.5].iter().map(|t| exposure(0, *t, "g", 24.0)).collect();
    let bins = sequential_bins(&obs, &vec![0, 1, 2, 3, 4], d(1.0), &elapsed);
    assert_eq!(bins, vec![vec![0, 1, 2], vec![3, 4]]);
    let none = sequential_bins(&obs, &vec![], d(1.0), &elapsed);
    assert!(none.is_empty());
}

#[test]
fn a_bin_ends_where_the_window_is_exceeded() {
    let pair = |gap: f64| vec![exposure(0, 100.0, "g", 20.0), exposure(1, 100.0 + gap, "g", 20.0)];
    assert_eq!(sequential_bins(&pair(0.5), &vec![0, 1], d(0.5), &elapsed), vec![vec![0, 1]]);
    let apart = sequential_bins(&pair(0.5), &vec![0, 1], d(0.4999), &elapsed);
    assert_eq!(apart, vec![vec![0], vec![1]]);
    let eval = evaluation(&[("g", &[20.0, 20.0])], &[100.0, 100.5]);
    let series = stack_flux_average(&eval, &pair(0.5), d(0.5), &elapsed, &average).unwrap();
    assert_eq!(series.observations.len(), 1);
    assert_eq!(f(series.observations[0].mjd), 100.25);
    assert_eq!(f(series.observations[0].exposure_time), 60.0);
}

#[test]
fn a_window_that_is_no_number_keeps_exposures_apart() {
    let obs: Vec<SurveyObservation> =
        [0.0, 0.0, 100.0].iter().map(|t| exposure(0, *t, "g", 24.0)).collect();
    let bins = sequential_bins(&obs, &vec![0, 1, 2], d(f64::NAN), &elapsed);
    assert_eq!(bins, vec![vec![0], vec![1], vec![2]]);
    let eval = evaluation(&[("g", &[20.0, 20.0, 20.0])], &[0.0, 0.0, 100.0]);
    let series = stack_flux_average(&eval, &obs, d(f64::NAN), &elapsed, &average).unwrap();
    assert_eq!(times(&series), vec![0.0, 0.0, 100.0]);
}

#[test]
fn a_time_that_is_no_number_starts_a_bin() {
    let obs: Vec<SurveyObservation> = [1.0, f64::INFINITY, f64::INFINITY]
        .iter()
        .map(|t| exposure(0, *t, "g", 24.0))
        .collect();
    let bins = sequential_bins(&obs, &vec![0, 1, 2], d(1.0), &elapsed);
    assert_eq!(bins, vec![vec![0], vec![1], vec![2]]);
    let late = sequential_bins(&obs, &vec![1, 2], d(f64::INFINITY), &elapsed);
    assert_eq!(late, vec![vec![1], vec![2]]);
}

#[test]
fn stacks_each_band_on_its_own() {
    let (eval, obs) = sample();
    let series = stack_flux_average(&eval, &obs, d(1.0), &elapsed, &average).unwrap();
    assert_eq!(times(&series), vec![60000.375, 60000.75, 60002.0]);
    let bands: Vec<&str> = series.observations.iter().map(|o| o.band.as_str()).collect();
    assert_eq!(bands, vec!["g", "r", "g"]);
    assert_eq!(mags(&series, "g"), vec![20.0, 99.0, 99.0]);
    assert_eq!(mags(&series, "r"), vec![99.0, 19.0, 99.0]);
    assert!(series.evaluation.apparent_mags.get(&"i".to_string()).is_none());
    let first = &series.observations[0];
    assert_eq!(f(first.five_sigma_depth), 23.5 + 1.25 * 2f64.log10());
    assert_eq!(f(first.exposure_time), 60.0);
    assert_eq!(f(first.ra), 11.0);
    assert_eq!(first.night, 60000);
    let ids: Vec<u64> = series.observations.iter().map(|o| o.obs_id).collect();
    assert_eq!(ids, vec![0, 2, 1]);
}

#[test]
fn flux_is_averaged_over_usable_magnitudes() {
    let obs: Vec<SurveyObservation> =
        [0.0, 0.1, 0.2].iter().map(|t| exposure(0, *t, "g", 24.0)).collect();
    let eval = evaluation(&[("g", &[20.0, 99.0, 21.0])], &[0.0, 0.1, 0.2]);
    let series = stack_flux_average(&eval, &obs, d(1.0), &elapsed, &average).unwrap();
    let flux = (10f64.powf(-8.0) + 10f64.powf(-8.4)) / 2.0;
    assert_eq!(series.observations.len(), 1);
    assert!((mags(&series, "g")[0] + 2.5 * flux.log10()).abs() < 1e-12);
}

#[test]
fn a_row_that_is_too_short_counts_as_unusable() {
    let obs = vec![exposure(0, 0.0, "g", 24.0), exposure(1, 5.0, "g", 24.0)];
    let eval = evaluation(&[("g", &[20.0])], &[0.0, 5.0]);
    let series = stack_flux_average(&eval, &obs, d(1.0), &elapsed, &average).unwrap();
    assert_eq!(mags(&series, "g"), vec![20.0, 99.0]);
}

fn middle_depths(depths: &[f64]) -> (f64, f64) {
    let obs: Vec<SurveyObservation> = depths
        .iter()
        .enumerate()
        .map(|(i, depth)| exposure(i as u64, i as f64 * 0.01, "g", *depth))
        .collect();
    let row = vec![20.0; depths.len()];
    let eval = evaluation(&[("g", &row)], &row);
    let stacks = plan_bins(&obs, &eval.apparent_mags, d(1.0), &elapsed).unwrap();
    let summaries = summarize_bins(&obs, &eval.apparent_mags, &stacks).unwrap();
    assert_eq!(summaries.len(), 1);
    assert_eq!(summaries[0].members.len(), depths.len());
    (f(summaries[0].lower_depth), f(summaries[0].upper_depth))
}

#[test]
fn the_median_lies_between_the_two_middle_depths() {
    assert_eq!(middle_depths(&[24.0, 21.0, 23.0, 22.0]), (22.0, 23.0));
    assert_eq!(middle_depths(&[24.0, 21.0, 23.0]), (23.0, 23.0));
    assert_eq!(middle_depths(&[24.0]), (24.0, 24.0));
}

#[test]
fn the_median_depth_is_boosted() {
    let obs = vec![exposure(0, 100.0, "g", 20.0), exposure(1, 100.25, "g", 22.0)];
    let eval = evaluation(&[("g", &[20.0, 20.0])], &[100.0, 100.25]);
    let series = stack_flux_average(&eval, &obs, d(1.0), &elapsed, &average).unwrap();
    assert_eq!(series.observations.len(), 1);
    assert!((f(series.observations[0].five_sigma_depth) - 21.376287).abs() < 1e-6);
}

#[test]
fn fewer_than_two_exposures_are_left_as_they_are() {
    let obs = vec![exposure(7, 60000.5, "g", 24.0)];
    let eval = evaluation(&[("g", &[20.0]), ("r", &[18.0])], &[60000.5]);
    let series = stack_flux_average(&eval, &obs, d(1.0), &elapsed, &average).unwrap();
    assert_eq!(series.observations.len(), 1);
    assert_eq!(series.observations[0].obs_id, 7);
    assert_eq!(mags(&series, "r"), vec![18.0]);
    let same = unstacked(&eval, &obs);
    assert_eq!(times(&same), vec![60000.5]);
    assert_eq!(mags(&same, "g"), vec![20.0]);
}

#[test]
fn times_that_cannot_be_ordered_have_no_stack() {
    let eval = evaluation(&[("g", &[20.0, 20.0])], &[0.0, 0.0]);
    let nan_time = vec![exposure(0, f64::NAN, "g", 24.0), exposure(1, 1.0, "g", 24.0)];
    assert!(stack_flux_average(&eval, &nan_time, d(1.0), &elapsed, &average).is_none());
    let nan_depth = vec![exposure(0, 0.0, "g", f64::NAN), exposure(1, 0.1, "g", 24.0)];
    assert!(stack_flux_average(&eval, &nan_depth, d(1.0), &elapsed, &average).is_none());
    let lonely_depths = vec![exposure(0, 0.0, "g", f64::NAN), exposure(1, 5.0, "g", 24.0)];
    assert!(stack_flux_average(&eval, &lonely_depths, d(1.0), &elapsed, &average).is_some());
}

#[test]
fn mean_times_that_cannot_be_ordered_have_no_stack() {
    let eval = evaluation(&[("g", &[20.0]), ("r", &[20.0, 20.0])], &[0.0, 0.0]);
    let obs = vec![exposure(0, f64::NAN, "g", 24.0), exposure(1, 1.0, "r", 24.0)];
    assert!(stack_flux_average(&eval, &obs, d(1.0), &elapsed, &average).is_none());
}

#[test]
fn several_windows_are_taken_together() {
    let obs = vec![
        exposure(0, 100.0, "g", 24.0),
        exposure(1, 100.5, "g", 24.0),
        exposure(2, 101.0, "r", 24.0),
    ];
    let eval = evaluation(
        &[("g", &[20.0, 20.0, 99.0]), ("r", &[99.0, 99.0, 18.0])],
        &[100.0, 100.5, 101.0],
    );
    let windows = vec![d(0.25), d(1.0)];
    let series = stack_multi_window(&eval, &obs, &windows, &elapsed, &average).unwrap();
    assert_eq!(times(&series), vec![100.0, 100.25, 100.5, 101.0, 101.0]);
    assert_eq!(mags(&series, "g"), vec![20.0, 20.0, 20.0, 99.0, 99.0]);
    assert_eq!(mags(&series, "r"), vec![99.0, 99.0, 99.0, 18.0, 18.0]);
    let ids: Vec<u64> = series.observations.iter().map(|o| o.obs_id).collect();
    assert_eq!(ids, vec![0, 1, 2, 3, 4]);
    let depths: Vec<f64> = series.observations.iter().map(|o| f(o.five_sigma_depth)).collect();
    assert_eq!(depths[1], 24.0 + 1.25 * 2f64.log10());
    assert_eq!(depths[0], 24.0);
}

#[test]
fn one_window_is_its_own_stack_and_none_stacks_nothing() {
    let (eval, obs) = sample();
    let single = stack_multi_window(&eval, &obs, &vec![d(1.0)], &elapsed, &average).unwrap();
    assert_eq!(times(&single), vec![60000.375, 60000.75, 60002.0]);
    let nothing = stack_multi_window(&eval, &obs, &vec![], &elapsed, &average).unwrap();
    assert_eq!(nothing.observations.len(), 5);
    assert_eq!(times(&nothing), times(&unstacked(&eval, &obs)));
}

#[test]
fn windows_are_refused_as_one() {
    let eval = evaluation(&[("g", &[20.0, 20.0])], &[0.0, 0.0]);
    let obs = vec![exposure(0, f64::NAN, "g", 24.0), exposure(1, 1.0, "g", 24.0)];
    let windows = vec![d(0.25), d(1.0)];
    assert!(stack_multi_window(&eval, &obs, &windows, &elapsed, &average).is_none());
}

#[test]
fn series_with_missing_values_are_not_combinable() {
    let obs = vec![exposure(0, 100.0, "g", 24.0)];
    let parts = vec![
        unstacked(&evaluation(&[("g", &[20.0])], &[100.0]), &obs),
        unstacked(&evaluation(&[("r", &[20.0])], &[100.0]), &obs),
    ];
    assert!(combine_windows(&parts).is_none());
    let timeless = vec![
        unstacked(&evaluation(&[("g", &[20.0])], &[]), &obs),
        unstacked(&evaluation(&[("g", &[20.0])], &[100.0]), &obs),
    ];
    assert!(combine_windows(&timeless).is_none());
}

#[test]
fn wider_windows_give_fewer_and_deeper_stacks() {
    let minute = 1.0 / 1440.0;
    let obs: Vec<SurveyObservation> =
        (0..12).map(|i| exposure(i, i as f64 * 5.0 * minute, "g", 24.0)).collect();
    let row = vec![20.0; 12];
    let times: Vec<f64> = (0..12).map(|i| i as f64 * 5.0 * minute).collect();
    let eval = evaluation(&[("g", &row)], &times);
    let quarter = stack_flux_average(&eval, &obs, d(14.0 * minute), &elapsed, &average).unwrap();
    let hour = stack_flux_average(&eval, &obs, d(60.0 * minute), &elapsed, &average).unwrap();
    assert_eq!(quarter.observations.len(), 4);
    assert_eq!(hour.observations.len(), 1);
    assert!(f(hour.observations[0].five_sigma_depth) > f(quarter.observations[0].five_sigma_depth));
    let windows = vec![d(14.0 * minute), d(60.0 * minute)];
    let both = stack_multi_window(&eval, &obs, &windows, &elapsed, &average).unwrap();
    assert_eq!(both.observations.len(), 5);
}

#[test]
fn every_exposure_of_an_evaluated_band_is_in_one_bin() {
    let (eval, obs) = sample();
    for window in [0.01, 0.2, 1.0, 10.0] {
        let stacks = plan_bins(&obs, &eval.apparent_mags, d(window), &elapsed).unwrap();
        let bands: Vec<&str> = stacks.iter().map(|s| s.band.as_str()).collect();
        assert_eq!(bands, vec!["g", "r"]);
        let mut members: Vec<usize> =
            stacks.iter().flat_map(|s| s.bins.iter().flatten().copied()).collect();
        members.sort();
        assert_eq!(members, vec![0, 1, 2, 3]);
    }
}

#[test]
fn longer_windows_give_no_more_in_any_band() {
    let (eval, obs) = sample();
    let counts = |window: f64| -> (usize, usize) {
        let series = stack_multi_window(&eval, &obs, &vec![d(window)], &elapsed, &average).unwrap();
        let of = |band: &str| series.observations.iter().filter(|o| o.band == band).count();
        (of("g"), of("r"))
    };
    assert_eq!(counts(0.1), (3, 1));
    assert_eq!(counts(0.25), (2, 1));
    assert_eq!(counts(1.75), (1, 1));
}

#[test]
fn several_windows_give_the_stacks_of_each() {
    let (eval, obs) = sample();
    let stack = |window: f64| stack_flux_average(&eval, &obs, d(window), &elapsed, &average);
    let mut expected: Vec<(u64, String)> = Vec::new();
    for window in [0.1, 1.0] {
        for o in stack(window).unwrap().observations {
            expected.push((o.mjd.bits, o.band.clone()));
        }
    }
    expected.sort();
    let both = stack_multi_window(&eval, &obs, &vec![d(0.1), d(1.0)], &elapsed, &average).unwrap();
    let mut found: Vec<(u64, String)> =
        both.observations.iter().map(|o| (o.mjd.bits, o.band.clone())).collect();
    found.sort();
    assert_eq!(found, expected);
    let one = stack_multi_window(&eval, &obs, &vec![d(1.0)], &elapsed, &average).unwrap();
    assert_eq!(format!("{:?}", one), format!("{:?}", stack(1.0).unwrap()));
}
