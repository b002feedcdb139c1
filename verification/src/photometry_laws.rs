//! What holds of simulated photometry as a whole.
use vstd::prelude::*;

use crate::double::Double;
use crate::photometry::{
    are_trials, can_be_built, drawn, is_photometry, is_significant, is_trial, photometry_of,
    reading, seed_of, LimitView, PhotometryView, PointView, Trial,
};
use crate::noise::seeded_words;
use crate::survey::{observations, LightcurveEvaluation, ObservationView, SurveyObservation};

verus! {

/// Every exposure is accounted for: without sub-threshold measurements it gives either a point or
/// an upper limit; with them, it gives one of the two or both.
pub proof fn law_every_exposure_counts(
    mags: Map<Seq<char>, Seq<Double>>,
    list: Seq<ObservationView>,
    t_exp: Double,
    trials: Seq<Trial>,
    keep: bool,
    n: int,
)
    requires
        0 <= n,
    ensures
        ({
            let result = photometry_of(mags, list, t_exp, trials, keep, n);
            &&& !keep ==> result.points.len() + result.limits.len() == n
            &&& n <= result.points.len() + result.limits.len() <= 2 * n
            &&& result.points.len() <= n
            &&& result.limits.len() <= n
        }),
    decreases n,
{
    if n > 0 {
        law_every_exposure_counts(mags, list, t_exp, trials, keep, n - 1);
    }
}

/// No point is from before the explosion: such exposures give upper limits only.
pub proof fn law_no_point_before_explosion(
    mags: Map<Seq<char>, Seq<Double>>,
    list: Seq<ObservationView>,
    t_exp: Double,
    trials: Seq<Trial>,
    keep: bool,
    n: int,
)
    ensures
        forall|k: int|
            0 <= k < photometry_of(mags, list, t_exp, trials, keep, n).points.len() ==> !(
            #[trigger] photometry_of(mags, list, t_exp, trials, keep, n).points[k]).mjd.below(t_exp),
    decreases n,
{
    if n > 0 {
        law_no_point_before_explosion(mags, list, t_exp, trials, keep, n - 1);
        let before = photometry_of(mags, list, t_exp, trials, keep, n - 1);
        let after = photometry_of(mags, list, t_exp, trials, keep, n);
        assert forall|k: int| 0 <= k < after.points.len() implies !(
        #[trigger] after.points[k]).mjd.below(t_exp) by {
            if k < before.points.len() {
                assert(after.points[k] == before.points[k]);
            }
        }
    }
}

/// The upper limit that an exposure stands for.
pub open spec fn limit_of(observation: ObservationView) -> LimitView {
    LimitView {
        mjd: observation.mjd,
        depth: observation.five_sigma_depth,
        band: observation.band,
    }
}

/// An exposure from before the explosion always gives an upper limit, and so does every other one
/// that the model has no usable magnitude for.
pub proof fn law_unreadable_gives_limit(
    mags: Map<Seq<char>, Seq<Double>>,
    list: Seq<ObservationView>,
    t_exp: Double,
    trials: Seq<Trial>,
    keep: bool,
    n: int,
    i: int,
)
    requires
        0 <= i < n,
        list[i].mjd.below(t_exp) || reading(mags, list, t_exp, i) is None,
    ensures
        photometry_of(mags, list, t_exp, trials, keep, n).limits.contains(limit_of(list[i])),
    decreases n,
{
    let after = photometry_of(mags, list, t_exp, trials, keep, n);
    let before = photometry_of(mags, list, t_exp, trials, keep, n - 1);
    if i < n - 1 {
        law_unreadable_gives_limit(mags, list, t_exp, trials, keep, n - 1, i);
        let k = choose|k: int| 0 <= k < before.limits.len() && before.limits[k] == limit_of(list[i]);
        assert(after.limits[k] == limit_of(list[i]));
    } else {
        assert(after.limits[before.limits.len() as int] == limit_of(list[i]));
    }
}

/// The seed depends on the explosion time and the redshift alone.
pub open spec fn is_fixed_seed<K: Fn(Double, Double) -> (u64, u64)>(seeds: &K) -> bool {
    forall|t: Double, z: Double, r: (u64, u64), s: (u64, u64)| #[trigger]
        call_ensures(*seeds, (t, z), r) && #[trigger] call_ensures(*seeds, (t, z), s) ==> r == s
}

/// Ratio and error depend on depth and magnitude alone.
pub open spec fn is_fixed_measurement<M: Fn(Double, Double) -> (Double, Double)>(
    measure: &M,
) -> bool {
    forall|depth: Double, mag: Double, r: (Double, Double), s: (Double, Double)| #[trigger]
        call_ensures(*measure, (depth, mag), r) && #[trigger] call_ensures(
            *measure,
            (depth, mag),
            s,
        ) ==> r == s
}

/// Noise depends on magnitude, error and the two random numbers alone.
pub open spec fn is_fixed_noise<P: Fn(Double, Double, u64, u64) -> Double>(perturb: &P) -> bool {
    forall|mag: Double, err: Double, u: u64, v: u64, r: Double, s: Double| #[trigger]
        call_ensures(*perturb, (mag, err, u, v), r) && #[trigger] call_ensures(
            *perturb,
            (mag, err, u, v),
            s,
        ) ==> r == s
}

/// With arithmetic that depends on its arguments alone, the photometry of a transient is the same
/// each time it is built, noise included, whatever else differs between the transients: it depends
/// on the lightcurve, the exposures, the explosion time and the redshift.
pub proof fn law_photometry_repeats<
    K: Fn(Double, Double) -> (u64, u64),
    M: Fn(Double, Double) -> (Double, Double),
    P: Fn(Double, Double, u64, u64) -> Double,
>(
    seeds: &K,
    measure: &M,
    perturb: &P,
    evals: (&LightcurveEvaluation, &LightcurveEvaluation),
    obs: (Seq<SurveyObservation>, Seq<SurveyObservation>),
    t_exp: Double,
    z: Double,
    keep: bool,
    first: PhotometryView,
    second: PhotometryView,
)
    requires
        is_fixed_seed(seeds),
        is_fixed_measurement(measure),
        is_fixed_noise(perturb),
        evals.0.apparent_mags@ == evals.1.apparent_mags@,
        observations(obs.0) == observations(obs.1),
        can_be_built(seeds, measure, perturb, evals.0, obs.0, t_exp, z, keep, first),
        can_be_built(seeds, measure, perturb, evals.1, obs.1, t_exp, z, keep, second),
    ensures
        first == second,
{
    let mags = evals.0.apparent_mags@;
    let list = observations(obs.0);
    let (p, a) = choose|pair: (u64, u64), trials: Seq<Trial>| #[trigger]
        call_ensures(*seeds, (t_exp, z), pair) && #[trigger] is_photometry(
            measure,
            perturb,
            evals.0,
            obs.0,
            t_exp,
            seed_of(pair),
            keep,
            trials,
            first,
        );
    let (q, b) = choose|pair: (u64, u64), trials: Seq<Trial>| #[trigger]
        call_ensures(*seeds, (t_exp, z), pair) && #[trigger] is_photometry(
            measure,
            perturb,
            evals.1,
            obs.1,
            t_exp,
            seed_of(pair),
            keep,
            trials,
            second,
        );
    assert(p == q);
    let words = seeded_words(seed_of(p), usize::BITS as int);
    lemma_trials_agree(
        measure,
        perturb,
        mags,
        list,
        t_exp,
        keep,
        words,
        a,
        b,
        list.len() as int,
    );
}

/// Two points that differ in the noise at most.
pub open spec fn is_same_exposure(a: PointView, b: PointView) -> bool {
    a.mjd == b.mjd && a.mag_err == b.mag_err && a.band == b.band
}

/// Some upper limit is of the exposure that gave a point.
pub open spec fn has_limit(limits: Seq<LimitView>, point: PointView) -> bool {
    exists|l: int|
        0 <= l < limits.len() && (#[trigger] limits[l]).mjd == point.mjd && limits[l].band
            == point.band
}

/// The points of `few` are, but for the noise, those of `all` at the given places, in their order,
/// and every other point of `all` has an upper limit too.
pub open spec fn is_thinned(few: PhotometryView, all: PhotometryView, places: Seq<int>) -> bool {
    &&& few.limits == all.limits
    &&& places.len() == few.points.len()
    &&& forall|k: int|
        0 <= k < places.len() ==> 0 <= #[trigger] places[k] < all.points.len() && is_same_exposure(
            few.points[k],
            all.points[places[k]],
        )
    &&& forall|k: int, l: int|
        0 <= k < l < places.len() ==> #[trigger] places[k] < #[trigger] places[l]
    &&& forall|j: int|
        0 <= j < all.points.len() && !places.contains(j) ==> has_limit(
            all.limits,
            #[trigger] all.points[j],
        )
}

proof fn lemma_thinned<
    M: Fn(Double, Double) -> (Double, Double),
    P: Fn(Double, Double, u64, u64) -> Double,
>(
    measure: &M,
    perturb: &P,
    mags: Map<Seq<char>, Seq<Double>>,
    list: Seq<ObservationView>,
    t_exp: Double,
    words: (Map<int, u64>, Map<int, u64>),
    a: Seq<Trial>,
    b: Seq<Trial>,
    n: int,
) -> (places: Seq<int>)
    requires
        is_fixed_measurement(measure),
        are_trials(measure, perturb, mags, list, t_exp, false, words.0, a),
        are_trials(measure, perturb, mags, list, t_exp, true, words.1, b),
        0 <= n <= a.len(),
        n <= b.len(),
    ensures
        is_thinned(
            photometry_of(mags, list, t_exp, a, false, n),
            photometry_of(mags, list, t_exp, b, true, n),
            places,
        ),
    decreases n,
{
    if n == 0 {
        Seq::empty()
    } else {
        let i = n - 1;
        let before = lemma_thinned(measure, perturb, mags, list, t_exp, words, a, b, i);
        let few = photometry_of(mags, list, t_exp, a, false, i);
        let all = photometry_of(mags, list, t_exp, b, true, i);
        let few2 = photometry_of(mags, list, t_exp, a, false, n);
        let all2 = photometry_of(mags, list, t_exp, b, true, n);
        let found = reading(mags, list, t_exp, i);
        if found is Some {
            let (ta, tb) = (a[i], b[i]);
            assert(call_ensures(
                *measure,
                (list[i].five_sigma_depth, found->0),
                (ta.snr, ta.mag_err),
            ));
            assert(call_ensures(
                *measure,
                (list[i].five_sigma_depth, found->0),
                (tb.snr, tb.mag_err),
            ));
            assert((ta.snr, ta.mag_err) == (tb.snr, tb.mag_err));
        }
        let strict = found is Some && is_significant(a[i]);
        let places = if strict {
            before.push(all.points.len() as int)
        } else {
            before
        };
        assert(few2.limits == all2.limits);
        assert forall|k: int| 0 <= k < places.len() implies 0 <= #[trigger] places[k]
            < all2.points.len() && is_same_exposure(few2.points[k], all2.points[places[k]]) by {
            if k < before.len() {
                assert(places[k] == before[k]);
                assert(few2.points[k] == few.points[k]);
                assert(all2.points[places[k]] == all.points[before[k]]);
            }
        }
        assert forall|j: int| 0 <= j < all2.points.len() && !places.contains(j) implies has_limit(
            all2.limits,
            #[trigger] all2.points[j],
        ) by {
            if j < all.points.len() {
                assert(all2.points[j] == all.points[j]);
                if before.contains(j) {
                    let k = choose|k: int| 0 <= k < before.len() && before[k] == j;
                    assert(places[k] == j);
                }
                assert(has_limit(all.limits, all.points[j]));
                let l = choose|l: int|
                    0 <= l < all.limits.len() && (#[trigger] all.limits[l]).mjd
                        == all.points[j].mjd && all.limits[l].band == all.points[j].band;
                assert(all2.limits[l] == all.limits[l]);
            } else {
                if strict {
                    assert(places[before.len() as int] == j);
                }
                assert(all2.limits[all.limits.len() as int].mjd == all2.points[j].mjd);
            }
        }
        places
    }
}

/// Keeping measurements below the threshold changes no upper limit and only adds points: the others
/// are there in their order, with the same errors, and every added one has an upper limit too.
pub proof fn law_keeping_only_adds<
    K: Fn(Double, Double) -> (u64, u64),
    M: Fn(Double, Double) -> (Double, Double),
    P: Fn(Double, Double, u64, u64) -> Double,
>(
    seeds: &K,
    measure: &M,
    perturb: &P,
    eval: &LightcurveEvaluation,
    obs: Seq<SurveyObservation>,
    t_exp: Double,
    z: Double,
    strict: PhotometryView,
    kept: PhotometryView,
)
    requires
        is_fixed_measurement(measure),
        can_be_built(seeds, measure, perturb, eval, obs, t_exp, z, false, strict),
        can_be_built(seeds, measure, perturb, eval, obs, t_exp, z, true, kept),
    ensures
        strict.limits == kept.limits,
        exists|places: Seq<int>| is_thinned(strict, kept, places),
{
    let mags = eval.apparent_mags@;
    let list = observations(obs);
    let (p, a) = choose|pair: (u64, u64), trials: Seq<Trial>| #[trigger]
        call_ensures(*seeds, (t_exp, z), pair) && #[trigger] is_photometry(
            measure,
            perturb,
            eval,
            obs,
            t_exp,
            seed_of(pair),
            false,
            trials,
            strict,
        );
    let (q, b) = choose|pair: (u64, u64), trials: Seq<Trial>| #[trigger]
        call_ensures(*seeds, (t_exp, z), pair) && #[trigger] is_photometry(
            measure,
            perturb,
            eval,
            obs,
            t_exp,
            seed_of(pair),
            true,
            trials,
            kept,
        );
    let words = (
        seeded_words(seed_of(p), usize::BITS as int),
        seeded_words(seed_of(q), usize::BITS as int),
    );
    let places = lemma_thinned(
        measure,
        perturb,
        mags,
        list,
        t_exp,
        words,
        a,
        b,
        list.len() as int,
    );
    assert(is_thinned(strict, kept, places));
}

proof fn lemma_trials_agree<
    M: Fn(Double, Double) -> (Double, Double),
    P: Fn(Double, Double, u64, u64) -> Double,
>(
    measure: &M,
    perturb: &P,
    mags: Map<Seq<char>, Seq<Double>>,
    list: Seq<ObservationView>,
    t_exp: Double,
    keep: bool,
    words: Map<int, u64>,
    a: Seq<Trial>,
    b: Seq<Trial>,
    n: int,
)
    requires
        is_fixed_measurement(measure),
        is_fixed_noise(perturb),
        are_trials(measure, perturb, mags, list, t_exp, keep, words, a),
        are_trials(measure, perturb, mags, list, t_exp, keep, words, b),
        0 <= n <= a.len(),
        n <= b.len(),
    ensures
        drawn(mags, list, t_exp, a, keep, n) == drawn(mags, list, t_exp, b, keep, n),
        photometry_of(mags, list, t_exp, a, keep, n) == photometry_of(
            mags,
            list,
            t_exp,
            b,
            keep,
            n,
        ),
    decreases n,
{
    if n > 0 {
        let i = n - 1;
        lemma_trials_agree(measure, perturb, mags, list, t_exp, keep, words, a, b, i);
        let found = reading(mags, list, t_exp, i);
        if found is Some {
            let used = drawn(mags, list, t_exp, a, keep, i);
            let pair = (words[2 * used], words[2 * used + 1]);
            assert(is_trial(
                measure,
                perturb,
                list[i].five_sigma_depth,
                found->0,
                keep,
                pair,
                a[i],
            ));
            assert(is_trial(
                measure,
                perturb,
                list[i].five_sigma_depth,
                found->0,
                keep,
                pair,
                b[i],
            ));
            assert((a[i].snr, a[i].mag_err) == (b[i].snr, b[i].mag_err));
        }
    }
}

} // verus!
