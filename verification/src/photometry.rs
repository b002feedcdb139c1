//! Simulated photometry of one transient: measurements with noise, and upper limits.
use vstd::prelude::*;

use crate::double::{Double, FIVE_BITS, NINETY_BITS, THIRTY_BITS};
use crate::noise::{draw_numerator, numerator, seeded_generator, seeded_words, upcoming_words};
use crate::survey::{
    observations, LightcurveEvaluation, ObservationView, SurveyObservation,
};

verus! {

/// A measured magnitude.
#[derive(Debug)]
pub struct PhotometryPoint {
    pub mjd: Double,
    pub mag: Double,
    pub mag_err: Double,
    pub band: String,
}

/// A measured magnitude, its band name as characters.
pub struct PointView {
    pub mjd: Double,
    pub mag: Double,
    pub mag_err: Double,
    pub band: Seq<char>,
}

impl View for PhotometryPoint {
    type V = PointView;

    open spec fn view(&self) -> PointView {
        PointView { mjd: self.mjd, mag: self.mag, mag_err: self.mag_err, band: self.band@ }
    }
}

impl Clone for PhotometryPoint {
    fn clone(&self) -> (res: Self)
        ensures
            res == *self,
    {
        PhotometryPoint {
            mjd: self.mjd,
            mag: self.mag,
            mag_err: self.mag_err,
            band: self.band.clone(),
        }
    }
}

/// An exposure that did not show the transient: it was fainter than the depth.
#[derive(Debug)]
pub struct UpperLimit {
    pub mjd: Double,
    pub depth: Double,
    pub band: String,
}

/// An upper limit, its band name as characters.
pub struct LimitView {
    pub mjd: Double,
    pub depth: Double,
    pub band: Seq<char>,
}

impl View for UpperLimit {
    type V = LimitView;

    open spec fn view(&self) -> LimitView {
        LimitView { mjd: self.mjd, depth: self.depth, band: self.band@ }
    }
}

impl Clone for UpperLimit {
    fn clone(&self) -> (res: Self)
        ensures
            res == *self,
    {
        UpperLimit { mjd: self.mjd, depth: self.depth, band: self.band.clone() }
    }
}

/// The photometry of one transient.
#[derive(Debug)]
pub struct Photometry {
    pub points: Vec<PhotometryPoint>,
    pub limits: Vec<UpperLimit>,
}

/// The photometry of one transient as sequences.
pub struct PhotometryView {
    pub points: Seq<PointView>,
    pub limits: Seq<LimitView>,
}

/// The views of a list of measured magnitudes.
pub open spec fn point_views(list: Seq<PhotometryPoint>) -> Seq<PointView> {
    Seq::new(list.len(), |i: int| list[i]@)
}

/// The views of a list of upper limits.
pub open spec fn limit_views(list: Seq<UpperLimit>) -> Seq<LimitView> {
    Seq::new(list.len(), |i: int| list[i]@)
}

impl View for Photometry {
    type V = PhotometryView;

    open spec fn view(&self) -> PhotometryView {
        PhotometryView { points: point_views(self.points@), limits: limit_views(self.limits@) }
    }
}

/// The magnitude that the model gives for an exposure: none before the explosion, none if the
/// band has no value for the exposure, and none if the value is not finite or above 90.
pub open spec fn reading(
    mags: Map<Seq<char>, Seq<Double>>,
    list: Seq<ObservationView>,
    t_exp: Double,
    i: int,
) -> Option<Double> {
    let observation = list[i];
    if observation.mjd.below(t_exp) {
        None
    } else if mags.contains_key(observation.band) && i < mags[observation.band].len() {
        let mag = mags[observation.band][i];
        if !mag.finite() || (Double { bits: NINETY_BITS }).below(mag) {
            None
        } else {
            Some(mag)
        }
    } else {
        None
    }
}

/// Looks up the magnitude that the model gives for an exposure.
pub fn model_reading(
    eval: &LightcurveEvaluation,
    obs: &Vec<SurveyObservation>,
    t_exp: Double,
    index: usize,
) -> (res: Option<Double>)
    requires
        eval.apparent_mags.wf(),
        index < obs@.len(),
    ensures
        res == reading(eval.apparent_mags@, observations(obs@), t_exp, index as int),
{
    let observation = &obs[index];
    assert(observations(obs@)[index as int] == observation@);
    if observation.mjd.lt(&t_exp) {
        return None;
    }
    match eval.apparent_mags.get(&observation.band) {
        Some(mags) => {
            if index < mags.len() {
                let mag: Double = mags[index];
                let faint = Double { bits: NINETY_BITS };
                if !mag.is_finite() || faint.lt(&mag) {
                    None
                } else {
                    Some(mag)
                }
            } else {
                None
            }
        },
        None => None,
    }
}

/// The measurement of one exposure: its signal-to-noise ratio, the error of the magnitude, and
/// the magnitude with noise.
#[derive(Clone, Copy, Debug)]
pub struct Trial {
    pub snr: Double,
    pub mag_err: Double,
    pub observed_mag: Double,
}

/// The ratio is five or more.
pub open spec fn is_significant(trial: Trial) -> bool {
    (Double { bits: FIVE_BITS }).at_most(trial.snr)
}

/// The magnitude with noise is not outside the range from 0 to 30.
pub open spec fn is_plausible(trial: Trial) -> bool {
    !trial.observed_mag.below(Double { bits: 0 }) && !(Double { bits: THIRTY_BITS }).below(
        trial.observed_mag,
    )
}

/// An exposure gives a point: it is significant, or it is kept although it is not and its
/// magnitude is plausible.
pub open spec fn gives_point(reading: Option<Double>, trial: Trial, keep: bool) -> bool {
    reading is Some && (is_significant(trial) || (keep && is_plausible(trial)))
}

/// An exposure gives an upper limit: there is nothing to measure, or it is not significant.
pub open spec fn gives_limit(reading: Option<Double>, trial: Trial) -> bool {
    reading is None || !is_significant(trial)
}

/// The photometry with one more exposure.
pub open spec fn recorded(
    before: PhotometryView,
    observation: ObservationView,
    reading: Option<Double>,
    trial: Trial,
    keep: bool,
) -> PhotometryView {
    PhotometryView {
        points: if gives_point(reading, trial, keep) {
            before.points.push(
                PointView {
                    mjd: observation.mjd,
                    mag: trial.observed_mag,
                    mag_err: trial.mag_err,
                    band: observation.band,
                },
            )
        } else {
            before.points
        },
        limits: if gives_limit(reading, trial) {
            before.limits.push(
                LimitView {
                    mjd: observation.mjd,
                    depth: observation.five_sigma_depth,
                    band: observation.band,
                },
            )
        } else {
            before.limits
        },
    }
}

/// Adds an exposure to the photometry. `reading` is the model magnitude, if there is one, and
/// `trial` its measurement; `keep` asks for measurements below the threshold too.
pub fn record_observation(
    photometry: &mut Photometry,
    observation: &SurveyObservation,
    reading: Option<Double>,
    trial: Trial,
    keep: bool,
)
    ensures
        final(photometry)@ == recorded(old(photometry)@, observation@, reading, trial, keep),
{
    let ghost before = *photometry;
    let threshold = Double { bits: FIVE_BITS };
    let significant: bool = threshold.le(&trial.snr);
    if reading.is_none() || !significant {
        photometry.limits.push(
            UpperLimit {
                mjd: observation.mjd,
                depth: observation.five_sigma_depth,
                band: observation.band.clone(),
            },
        );
    }
    let brightest = Double { bits: 0 };
    let faintest = Double { bits: THIRTY_BITS };
    if reading.is_some() && (significant || (keep && !trial.observed_mag.lt(&brightest)
        && !faintest.lt(&trial.observed_mag))) {
        photometry.points.push(
            PhotometryPoint {
                mjd: observation.mjd,
                mag: trial.observed_mag,
                mag_err: trial.mag_err,
                band: observation.band.clone(),
            },
        );
    }
    proof {
        let expected = recorded(before@, observation@, reading, trial, keep);
        assert(photometry@.points =~= expected.points);
        assert(photometry@.limits =~= expected.limits);
    }
}

/// Noise is drawn for an exposure: there is a magnitude to measure, and its measurement is
/// significant or kept.
pub open spec fn is_drawn(reading: Option<Double>, trial: Trial, keep: bool) -> bool {
    reading is Some && (is_significant(trial) || keep)
}

/// How many of the first `n` exposures noise is drawn for.
pub open spec fn drawn(
    mags: Map<Seq<char>, Seq<Double>>,
    list: Seq<ObservationView>,
    t_exp: Double,
    trials: Seq<Trial>,
    keep: bool,
    n: int,
) -> int
    decreases n,
{
    if n <= 0 {
        0
    } else {
        drawn(mags, list, t_exp, trials, keep, n - 1) + if is_drawn(
            reading(mags, list, t_exp, n - 1),
            trials[n - 1],
            keep,
        ) {
            1int
        } else {
            0int
        }
    }
}

/// The photometry of the first `n` exposures.
pub open spec fn photometry_of(
    mags: Map<Seq<char>, Seq<Double>>,
    list: Seq<ObservationView>,
    t_exp: Double,
    trials: Seq<Trial>,
    keep: bool,
    n: int,
) -> PhotometryView
    decreases n,
{
    if n <= 0 {
        PhotometryView { points: Seq::empty(), limits: Seq::empty() }
    } else {
        recorded(
            photometry_of(mags, list, t_exp, trials, keep, n - 1),
            list[n - 1],
            reading(mags, list, t_exp, n - 1),
            trials[n - 1],
            keep,
        )
    }
}

/// `trial` measures an exposure of the given depth where the model gives `mag`: ratio and error
/// are what `measure` can give, and if noise is drawn, the magnitude is what `perturb` can give
/// for two random words.
pub open spec fn is_trial<
    M: Fn(Double, Double) -> (Double, Double),
    P: Fn(Double, Double, u64, u64) -> Double,
>(
    measure: &M,
    perturb: &P,
    depth: Double,
    mag: Double,
    keep: bool,
    words: (u64, u64),
    trial: Trial,
) -> bool {
    &&& call_ensures(*measure, (depth, mag), (trial.snr, trial.mag_err))
    &&& is_significant(trial) || keep ==> call_ensures(
        *perturb,
        (mag, trial.mag_err, numerator(words.0), numerator(words.1)),
        trial.observed_mag,
    )
}

/// `trials` measures the first `n` exposures, with the words of the generator taken in turn, two
/// for each exposure that noise is drawn for.
pub open spec fn are_trials<
    M: Fn(Double, Double) -> (Double, Double),
    P: Fn(Double, Double, u64, u64) -> Double,
>(
    measure: &M,
    perturb: &P,
    mags: Map<Seq<char>, Seq<Double>>,
    list: Seq<ObservationView>,
    t_exp: Double,
    keep: bool,
    words: Map<int, u64>,
    trials: Seq<Trial>,
) -> bool {
    forall|i: int|
        0 <= i < trials.len() && reading(mags, list, t_exp, i) is Some ==> is_trial(
            measure,
            perturb,
            list[i].five_sigma_depth,
            reading(mags, list, t_exp, i)->0,
            keep,
            (
                words[2 * drawn(mags, list, t_exp, trials, keep, i)],
                words[2 * drawn(mags, list, t_exp, trials, keep, i) + 1],
            ),
            #[trigger] trials[i],
        )
}

/// Builds the photometry of one transient: measured magnitudes and upper limits.
///
/// Exposures before the explosion, and exposures without a usable model magnitude, give upper
/// limits. For the others `measure` gives the signal-to-noise ratio and the error of the magnitude
/// from depth and magnitude, and `perturb` adds noise to the magnitude by the error and two random
/// numerators over 2^53. A ratio of five or more gives a point, a smaller one an upper limit;
/// if `save_sub_threshold` is set, the latter gives a point as well when its magnitude is
/// plausible.
///
/// The generator of the noise is seeded with the two words, combined bit by bit, that `seeds` gives
/// for the explosion time and the redshift.
pub fn build_photometry_from_eval<
    K: Fn(Double, Double) -> (u64, u64),
    M: Fn(Double, Double) -> (Double, Double),
    P: Fn(Double, Double, u64, u64) -> Double,
>(
    eval: &LightcurveEvaluation,
    obs: &Vec<SurveyObservation>,
    t_exp: Double,
    z: Double,
    save_sub_threshold: bool,
    seeds: &K,
    measure: &M,
    perturb: &P,
) -> (res: Photometry)
    requires
        eval.apparent_mags.wf(),
        forall|t: Double, redshift: Double| call_requires(*seeds, (t, redshift)),
        forall|depth: Double, mag: Double| call_requires(*measure, (depth, mag)),
        forall|mag: Double, err: Double, u: u64, v: u64|
            call_requires(*perturb, (mag, err, u, v)),
    ensures
        can_be_built(
            seeds,
            measure,
            perturb,
            eval,
            obs@,
            t_exp,
            z,
            save_sub_threshold,
            res@,
        ),
{
    let ghost mags = eval.apparent_mags@;
    let ghost list = observations(obs@);
    let (time_word, redshift_word) = seeds(t_exp, z);
    let seed: u64 = time_word ^ redshift_word;
    let ghost words = seeded_words(seed, usize::BITS as int);
    let ghost mut trials: Seq<Trial> = Seq::empty();
    let mut rng = seeded_generator(seed);
    let mut res = Photometry { points: Vec::new(), limits: Vec::new() };
    assert(res@.points =~= Seq::empty());
    assert(res@.limits =~= Seq::empty());
    let keep = save_sub_threshold;
    let threshold = Double { bits: FIVE_BITS };
    for i in 0..obs.len()
        invariant
            eval.apparent_mags.wf(),
            forall|depth: Double, mag: Double| call_requires(*measure, (depth, mag)),
            forall|mag: Double, err: Double, u: u64, v: u64|
                call_requires(*perturb, (mag, err, u, v)),
            mags == eval.apparent_mags@,
            list == observations(obs@),
            threshold == (Double { bits: FIVE_BITS }),
            trials.len() == i,
            are_trials(measure, perturb, mags, list, t_exp, keep, words, trials),
            forall|j: int|
                j >= 0 ==> #[trigger] upcoming_words(rng)[j] == words[2 * drawn(
                    mags,
                    list,
                    t_exp,
                    trials,
                    keep,
                    i as int,
                ) + j],
            res@ == photometry_of(mags, list, t_exp, trials, keep, i as int),
    {
        let found = model_reading(eval, obs, t_exp, i);
        let mut trial = Trial { snr: t_exp, mag_err: t_exp, observed_mag: t_exp };
        let ghost past = trials;
        let ghost used = drawn(mags, list, t_exp, past, keep, i as int);
        if let Some(mag) = found {
            let measured = measure(obs[i].five_sigma_depth, mag);
            trial = Trial { snr: measured.0, mag_err: measured.1, observed_mag: mag };
            if keep || threshold.le(&trial.snr) {
                assert(upcoming_words(rng)[0] == words[2 * used]);
                assert(upcoming_words(rng)[1] == words[2 * used + 1]);
                let u: u64 = draw_numerator(&mut rng);
                let v: u64 = draw_numerator(&mut rng);
                let observed = perturb(mag, trial.mag_err, u, v);
                trial = Trial { snr: trial.snr, mag_err: trial.mag_err, observed_mag: observed };
            }
        }
        record_observation(&mut res, &obs[i], found, trial, keep);
        proof {
            trials = past.push(trial);
            lemma_prefix(mags, list, t_exp, past, trials, keep, i as int);
            assert(list[i as int] == obs@[i as int]@);
            assert forall|k: int|
                0 <= k < trials.len() && reading(mags, list, t_exp, k) is Some implies is_trial(
                measure,
                perturb,
                list[k].five_sigma_depth,
                reading(mags, list, t_exp, k)->0,
                keep,
                (
                    words[2 * drawn(mags, list, t_exp, trials, keep, k)],
                    words[2 * drawn(mags, list, t_exp, trials, keep, k) + 1],
                ),
                #[trigger] trials[k],
            ) by {
                lemma_prefix(mags, list, t_exp, past, trials, keep, k);
                if k < i {
                    assert(trials[k] == past[k]);
                }
            }
        }
    }
    assert(is_photometry(
        measure,
        perturb,
        eval,
        obs@,
        t_exp,
        seed_of((time_word, redshift_word)),
        save_sub_threshold,
        trials,
        res@,
    ));
    assert(call_ensures(*seeds, (t_exp, z), (time_word, redshift_word)));
    res
}

/// `result` is the photometry that the given trials make of the exposures, the trials being what
/// `measure` and `perturb` can give with a generator seeded by `seed`.
pub open spec fn is_photometry<
    M: Fn(Double, Double) -> (Double, Double),
    P: Fn(Double, Double, u64, u64) -> Double,
>(
    measure: &M,
    perturb: &P,
    eval: &LightcurveEvaluation,
    obs: Seq<SurveyObservation>,
    t_exp: Double,
    seed: u64,
    keep: bool,
    trials: Seq<Trial>,
    result: PhotometryView,
) -> bool {
    let mags = eval.apparent_mags@;
    let list = observations(obs);
    let words = seeded_words(seed, usize::BITS as int);
    &&& trials.len() == list.len()
    &&& are_trials(measure, perturb, mags, list, t_exp, keep, words, trials)
    &&& result == photometry_of(mags, list, t_exp, trials, keep, list.len() as int)
}

/// The seed that the word of the explosion time and the word of the redshift give: the two combined
/// bit by bit.
pub open spec fn seed_of(pair: (u64, u64)) -> u64 {
    pair.0 ^ pair.1
}

/// `result` is photometry that can be built with a generator seeded by what `seeds` can give for
/// the explosion time and the redshift.
pub open spec fn can_be_built<
    K: Fn(Double, Double) -> (u64, u64),
    M: Fn(Double, Double) -> (Double, Double),
    P: Fn(Double, Double, u64, u64) -> Double,
>(
    seeds: &K,
    measure: &M,
    perturb: &P,
    eval: &LightcurveEvaluation,
    obs: Seq<SurveyObservation>,
    t_exp: Double,
    z: Double,
    keep: bool,
    result: PhotometryView,
) -> bool {
    exists|pair: (u64, u64), trials: Seq<Trial>| #[trigger]
        call_ensures(*seeds, (t_exp, z), pair) && #[trigger] is_photometry(
            measure,
            perturb,
            eval,
            obs,
            t_exp,
            seed_of(pair),
            keep,
            trials,
            result,
        )
}

/// What the first `n` exposures give depends on their trials alone.
proof fn lemma_prefix(
    mags: Map<Seq<char>, Seq<Double>>,
    list: Seq<ObservationView>,
    t_exp: Double,
    a: Seq<Trial>,
    b: Seq<Trial>,
    keep: bool,
    n: int,
)
    requires
        n <= a.len(),
        n <= b.len(),
        forall|i: int| 0 <= i < n ==> a[i] == b[i],
    ensures
        drawn(mags, list, t_exp, a, keep, n) == drawn(mags, list, t_exp, b, keep, n),
        photometry_of(mags, list, t_exp, a, keep, n) == photometry_of(
            mags,
            list,
            t_exp,
            b,
            keep,
            n,
        ),
    decreases n,
{
    if n > 0 {
        lemma_prefix(mags, list, t_exp, a, b, keep, n - 1);
    }
}

} // verus!
