//! What each exposure contributes to the photometry of a transient.
use vstd::arithmetic::power2::pow2;
use vstd::prelude::*;

use crate::double::{
    law_named_values, law_order_is_numeric, Double, FIVE_BITS, INFINITE_MAGNITUDE, NINETY_BITS,
    THIRTY_BITS,
};
use crate::noise::{numerator, seeded_words};
use crate::photometry::{
    can_be_built, drawn, is_drawn, is_photometry, is_trial, photometry_of, reading,
    recorded, seed_of, LimitView, PhotometryView, PointView, Trial,
};
use crate::survey::{observations, LightcurveEvaluation, ObservationView, SurveyObservation};

verus! {

/// `mag` is the magnitude of the model for exposure `i` in the band of the exposure; the exposure is
/// not from before the explosion, and the magnitude is a number up to 90.
pub open spec fn is_usable(
    mags: Map<Seq<char>, Seq<Double>>,
    list: Seq<ObservationView>,
    t_exp: Double,
    i: int,
    mag: Double,
) -> bool {
    &&& !list[i].mjd.below(t_exp)
    &&& mags.contains_key(list[i].band)
    &&& 0 <= i < mags[list[i].band].len()
    &&& mag == mags[list[i].band][i]
    &&& mag.finite()
    &&& mag.value() <= 90 * pow2(1074)
}

/// The ratio is five, or more than five without a bound.
pub open spec fn is_five_or_more(ratio: Double) -> bool {
    ratio.bits == INFINITE_MAGNITUDE || (ratio.finite() && ratio.value() >= 5 * pow2(1074))
}

/// The magnitude is not below 0 and not above 30.
pub open spec fn is_within_range(mag: Double) -> bool {
    mag.nan() || (mag.finite() && 0 <= mag.value() <= 30 * pow2(1074))
}

/// The model magnitude of an exposure is used if and only if it is usable.
pub proof fn law_usable_magnitudes(
    mags: Map<Seq<char>, Seq<Double>>,
    list: Seq<ObservationView>,
    t_exp: Double,
    i: int,
    mag: Double,
)
    requires
        0 <= i,
    ensures
        reading(mags, list, t_exp, i) == Some(mag) <==> is_usable(mags, list, t_exp, i, mag),
        reading(mags, list, t_exp, i) is Some <==> is_usable(
            mags,
            list,
            t_exp,
            i,
            mags[list[i].band][i],
        ),
{
    law_named_values();
    let found = mags[list[i].band][i];
    if found.finite() {
        law_order_is_numeric(Double { bits: NINETY_BITS }, found);
    }
}

proof fn lemma_thresholds(ratio: Double, mag: Double)
    ensures
        (Double { bits: FIVE_BITS }).at_most(ratio) <==> is_five_or_more(ratio),
        !mag.below(Double { bits: 0 }) && !(Double { bits: THIRTY_BITS }).below(mag)
            <==> is_within_range(mag),
{
    law_named_values();
    if ratio.finite() {
        law_order_is_numeric(Double { bits: FIVE_BITS }, ratio);
    }
    if mag.finite() {
        law_order_is_numeric(Double { bits: THIRTY_BITS }, mag);
        law_order_is_numeric(mag, Double { bits: 0 });
    }
}

/// The point that an exposure gives.
pub open spec fn point_of(observation: ObservationView, trial: Trial) -> PointView {
    PointView {
        mjd: observation.mjd,
        mag: trial.observed_mag,
        mag_err: trial.mag_err,
        band: observation.band,
    }
}

/// An exposure with a usable magnitude gives a point and no upper limit for every ratio of five or
/// more, however large. With a smaller ratio it gives an upper limit at its depth, and a point as
/// well if those are kept and the measured magnitude is within range. Without a usable magnitude it
/// gives an upper limit alone.
pub proof fn law_point_or_limit(
    before: PhotometryView,
    observation: ObservationView,
    found: Option<Double>,
    trial: Trial,
    keep: bool,
    after: PhotometryView,
)
    requires
        after == recorded(before, observation, found, trial, keep),
    ensures
        found is Some && is_five_or_more(trial.snr) ==> after.points == before.points.push(
            point_of(observation, trial),
        ) && after.limits == before.limits,
        found is None || !is_five_or_more(trial.snr) ==> after.limits == before.limits.push(
            LimitView {
                mjd: observation.mjd,
                depth: observation.five_sigma_depth,
                band: observation.band,
            },
        ),
        found is Some && !is_five_or_more(trial.snr) && keep && is_within_range(trial.observed_mag)
            ==> after.points == before.points.push(point_of(observation, trial)),
        found is Some && !is_five_or_more(trial.snr) && !(keep && is_within_range(
            trial.observed_mag,
        )) ==> after.points == before.points,
        found is None ==> after.points == before.points,
{
    lemma_thresholds(trial.snr, trial.observed_mag);
}

/// A larger ratio never loses a measurement: where some ratio gives a point and no upper limit, so
/// does every larger one.
pub proof fn law_larger_ratio_keeps_point(
    before: PhotometryView,
    observation: ObservationView,
    found: Option<Double>,
    small: Trial,
    large: Trial,
    keep: bool,
)
    requires
        small.snr.at_most(large.snr),
        recorded(before, observation, found, small, keep).limits == before.limits,
    ensures
        recorded(before, observation, found, small, keep).points.len() == before.points.len() + 1,
        recorded(before, observation, found, large, keep).limits == before.limits,
        recorded(before, observation, found, large, keep).points == before.points.push(
            point_of(observation, large),
        ),
{
    let after = recorded(before, observation, found, small, keep);
    law_point_or_limit(before, observation, found, small, keep, after);
    lemma_thresholds(small.snr, small.observed_mag);
    lemma_thresholds(large.snr, large.observed_mag);
    if found is None || !is_five_or_more(small.snr) {
        assert(after.limits.len() == before.limits.len() + 1);
    }
    law_point_or_limit(
        before,
        observation,
        found,
        large,
        keep,
        recorded(before, observation, found, large, keep),
    );
}

/// Exposure `i` gives a point.
pub open spec fn has_point(
    mags: Map<Seq<char>, Seq<Double>>,
    list: Seq<ObservationView>,
    t_exp: Double,
    trials: Seq<Trial>,
    keep: bool,
    i: int,
) -> bool {
    &&& is_usable(mags, list, t_exp, i, mags[list[i].band][i])
    &&& is_five_or_more(trials[i].snr) || (keep && is_within_range(trials[i].observed_mag))
}

/// Exposure `i` gives an upper limit.
pub open spec fn has_limit(
    mags: Map<Seq<char>, Seq<Double>>,
    list: Seq<ObservationView>,
    t_exp: Double,
    trials: Seq<Trial>,
    i: int,
) -> bool {
    !is_usable(mags, list, t_exp, i, mags[list[i].band][i]) || !is_five_or_more(trials[i].snr)
}

/// Points and limits are those of the exposures at the given places among the first `n`, which
/// ascend: `shown` are all that give a point, and `limited` all that give an upper limit.
pub open spec fn is_account(
    mags: Map<Seq<char>, Seq<Double>>,
    list: Seq<ObservationView>,
    t_exp: Double,
    trials: Seq<Trial>,
    keep: bool,
    n: int,
    shown: Seq<int>,
    limited: Seq<int>,
    result: PhotometryView,
) -> bool {
    &&& result.points.len() == shown.len()
    &&& result.limits.len() == limited.len()
    &&& forall|k: int|
        0 <= k < shown.len() ==> {
            &&& 0 <= (#[trigger] shown[k]) < n
            &&& has_point(mags, list, t_exp, trials, keep, shown[k])
            &&& result.points[k] == point_of(list[shown[k]], trials[shown[k]])
        }
    &&& forall|k: int|
        0 <= k < limited.len() ==> {
            &&& 0 <= (#[trigger] limited[k]) < n
            &&& has_limit(mags, list, t_exp, trials, limited[k])
            &&& result.limits[k] == (LimitView {
                mjd: list[limited[k]].mjd,
                depth: list[limited[k]].five_sigma_depth,
                band: list[limited[k]].band,
            })
        }
    &&& forall|k: int, l: int|
        0 <= k < l < shown.len() ==> (#[trigger] shown[k]) < (#[trigger] shown[l])
    &&& forall|k: int, l: int|
        0 <= k < l < limited.len() ==> (#[trigger] limited[k]) < (#[trigger] limited[l])
    &&& forall|i: int|
        0 <= i < n && #[trigger] has_point(mags, list, t_exp, trials, keep, i) ==> shown.contains(i)
    &&& forall|i: int|
        0 <= i < n && #[trigger] has_limit(mags, list, t_exp, trials, i) ==> limited.contains(i)
}

proof fn lemma_push_contains(places: Seq<int>, last: int)
    ensures
        forall|i: int| #[trigger] places.push(last).contains(i) <==> places.contains(i) || i == last,
{
    assert forall|i: int| #[trigger] places.push(last).contains(i) <==> places.contains(i) || i
        == last by {
        if places.contains(i) {
            let k = choose|k: int| 0 <= k < places.len() && places[k] == i;
            assert(places.push(last)[k] == i);
        }
        assert(places.push(last)[places.len() as int] == last);
    }
}

proof fn lemma_account(
    mags: Map<Seq<char>, Seq<Double>>,
    list: Seq<ObservationView>,
    t_exp: Double,
    trials: Seq<Trial>,
    keep: bool,
    n: int,
) -> (places: (Seq<int>, Seq<int>))
    requires
        0 <= n,
    ensures
        is_account(
            mags,
            list,
            t_exp,
            trials,
            keep,
            n,
            places.0,
            places.1,
            photometry_of(mags, list, t_exp, trials, keep, n),
        ),
    decreases n,
{
    if n == 0 {
        (Seq::empty(), Seq::empty())
    } else {
        let i = n - 1;
        let (shown, limited) = lemma_account(mags, list, t_exp, trials, keep, i);
        let before = photometry_of(mags, list, t_exp, trials, keep, i);
        let after = photometry_of(mags, list, t_exp, trials, keep, n);
        let found = reading(mags, list, t_exp, i);
        law_usable_magnitudes(mags, list, t_exp, i, mags[list[i].band][i]);
        law_point_or_limit(before, list[i], found, trials[i], keep, after);
        lemma_push_contains(shown, i);
        lemma_push_contains(limited, i);
        let more = if has_point(mags, list, t_exp, trials, keep, i) {
            shown.push(i)
        } else {
            shown
        };
        let less = if has_limit(mags, list, t_exp, trials, i) {
            limited.push(i)
        } else {
            limited
        };
        assert forall|k: int| 0 <= k < more.len() implies {
            &&& 0 <= (#[trigger] more[k]) < n
            &&& has_point(mags, list, t_exp, trials, keep, more[k])
            &&& after.points[k] == point_of(list[more[k]], trials[more[k]])
        } by {
            if k < shown.len() {
                assert(more[k] == shown[k]);
            }
        }
        assert forall|k: int| 0 <= k < less.len() implies {
            &&& 0 <= (#[trigger] less[k]) < n
            &&& has_limit(mags, list, t_exp, trials, less[k])
            &&& after.limits[k] == (LimitView {
                mjd: list[less[k]].mjd,
                depth: list[less[k]].five_sigma_depth,
                band: list[less[k]].band,
            })
        } by {
            if k < limited.len() {
                assert(less[k] == limited[k]);
            }
        }
        (more, less)
    }
}

/// Noise is drawn for exposure `i`.
pub open spec fn has_noise(
    mags: Map<Seq<char>, Seq<Double>>,
    list: Seq<ObservationView>,
    t_exp: Double,
    trials: Seq<Trial>,
    keep: bool,
    i: int,
) -> bool {
    is_usable(mags, list, t_exp, i, mags[list[i].band][i]) && (is_five_or_more(trials[i].snr) || keep)
}

/// The ratio and the error of every exposure with a usable magnitude are measured from its own depth
/// and that magnitude. Noise is added to that magnitude by that error and two words, which are the
/// next two for each exposure that noise is drawn for: none is used twice and none is passed over.
pub open spec fn is_measured_in_turn<
    M: Fn(Double, Double) -> (Double, Double),
    P: Fn(Double, Double, u64, u64) -> Double,
>(
    measure: &M,
    perturb: &P,
    mags: Map<Seq<char>, Seq<Double>>,
    list: Seq<ObservationView>,
    t_exp: Double,
    keep: bool,
    words: Map<int, u64>,
    trials: Seq<Trial>,
    used: Seq<int>,
) -> bool {
    &&& trials.len() == list.len()
    &&& used.len() == list.len() + 1
    &&& used[0] == 0
    &&& forall|i: int|
        0 <= i < list.len() ==> {
            let mag = mags[list[i].band][i];
            &&& used[i + 1] == used[i] + if has_noise(mags, list, t_exp, trials, keep, i) {
                2int
            } else {
                0int
            }
            &&& is_usable(mags, list, t_exp, i, mag) ==> call_ensures(
                *measure,
                (list[i].five_sigma_depth, mag),
                ((#[trigger] trials[i]).snr, trials[i].mag_err),
            )
            &&& has_noise(mags, list, t_exp, trials, keep, i) ==> call_ensures(
                *perturb,
                (mag, trials[i].mag_err, numerator(words[used[i]]), numerator(words[used[i] + 1])),
                trials[i].observed_mag,
            )
        }
}

proof fn lemma_drawn_grows(
    mags: Map<Seq<char>, Seq<Double>>,
    list: Seq<ObservationView>,
    t_exp: Double,
    trials: Seq<Trial>,
    keep: bool,
    i: int,
)
    requires
        0 <= i,
    ensures
        drawn(mags, list, t_exp, trials, keep, i + 1) == drawn(mags, list, t_exp, trials, keep, i)
            + if has_noise(mags, list, t_exp, trials, keep, i) {
            1int
        } else {
            0int
        },
        is_drawn(reading(mags, list, t_exp, i), trials[i], keep) == has_noise(
            mags,
            list,
            t_exp,
            trials,
            keep,
            i,
        ),
{
    law_usable_magnitudes(mags, list, t_exp, i, mags[list[i].band][i]);
    lemma_thresholds(trials[i].snr, trials[i].observed_mag);
}

/// Photometry accounts for every exposure by what the model and the measurement say of that
/// exposure: all that show the transient give a point, in their order, with the measured magnitude
/// and its error, all that do not give an upper limit, in their order, at their depth, and nothing
/// else is there. The noise comes from one generator, seeded for the explosion time and the
/// redshift.
pub proof fn law_photometry_accounts<
    K: Fn(Double, Double) -> (u64, u64),
    M: Fn(Double, Double) -> (Double, Double),
    P: Fn(Double, Double, u64, u64) -> Double,
>(
    seeds: &K,
    measure: &M,
    perturb: &P,
    eval: &LightcurveEvaluation,
    obs: Seq<SurveyObservation>,
    t_exp: Double,
    z: Double,
    keep: bool,
    result: PhotometryView,
)
    requires
        can_be_built(seeds, measure, perturb, eval, obs, t_exp, z, keep, result),
    ensures
        exists|
            pair: (u64, u64),
            trials: Seq<Trial>,
            used: Seq<int>,
            shown: Seq<int>,
            limited: Seq<int>,
        |
            call_ensures(*seeds, (t_exp, z), pair) && #[trigger] is_measured_in_turn(
                measure,
                perturb,
                eval.apparent_mags@,
                observations(obs),
                t_exp,
                keep,
                seeded_words(seed_of(pair), usize::BITS as int),
                trials,
                used,
            ) && #[trigger] is_account(
                eval.apparent_mags@,
                observations(obs),
                t_exp,
                trials,
                keep,
                obs.len() as int,
                shown,
                limited,
                result,
            ),
{
    let mags = eval.apparent_mags@;
    let list = observations(obs);
    let (pair, trials) = choose|pair: (u64, u64), trials: Seq<Trial>| #[trigger]
        call_ensures(*seeds, (t_exp, z), pair) && #[trigger] is_photometry(
            measure,
            perturb,
            eval,
            obs,
            t_exp,
            seed_of(pair),
            keep,
            trials,
            result,
        );
    let words = seeded_words(seed_of(pair), usize::BITS as int);
    let used = Seq::new(
        list.len() + 1,
        |i: int| 2 * drawn(mags, list, t_exp, trials, keep, i),
    );
    assert(is_measured_in_turn(measure, perturb, mags, list, t_exp, keep, words, trials, used)) by {
        assert forall|i: int| 0 <= i < list.len() implies {
            let mag = mags[list[i].band][i];
            &&& used[i + 1] == used[i] + if has_noise(mags, list, t_exp, trials, keep, i) {
                2int
            } else {
                0int
            }
            &&& is_usable(mags, list, t_exp, i, mag) ==> call_ensures(
                *measure,
                (list[i].five_sigma_depth, mag),
                ((#[trigger] trials[i]).snr, trials[i].mag_err),
            )
            &&& has_noise(mags, list, t_exp, trials, keep, i) ==> call_ensures(
                *perturb,
                (mag, trials[i].mag_err, numerator(words[used[i]]), numerator(words[used[i] + 1])),
                trials[i].observed_mag,
            )
        } by {
            let mag = mags[list[i].band][i];
            lemma_drawn_grows(mags, list, t_exp, trials, keep, i);
            law_usable_magnitudes(mags, list, t_exp, i, mag);
            lemma_thresholds(trials[i].snr, trials[i].observed_mag);
            if is_usable(mags, list, t_exp, i, mag) {
                assert(reading(mags, list, t_exp, i) == Some(mag));
                assert(is_trial(
                    measure,
                    perturb,
                    list[i].five_sigma_depth,
                    mag,
                    keep,
                    (words[used[i]], words[used[i] + 1]),
                    trials[i],
                ));
            }
        }
    }
    let (shown, limited) = lemma_account(mags, list, t_exp, trials, keep, list.len() as int);
    assert(is_account(
        mags,
        list,
        t_exp,
        trials,
        keep,
        obs.len() as int,
        shown,
        limited,
        result,
    ));
}

/// A transient that outshines every exposure has a point for each of them and no upper limit.
pub proof fn law_bright_transient<
    K: Fn(Double, Double) -> (u64, u64),
    M: Fn(Double, Double) -> (Double, Double),
    P: Fn(Double, Double, u64, u64) -> Double,
>(
    seeds: &K,
    measure: &M,
    perturb: &P,
    eval: &LightcurveEvaluation,
    obs: Seq<SurveyObservation>,
    t_exp: Double,
    z: Double,
    keep: bool,
    result: PhotometryView,
)
    requires
        can_be_built(seeds, measure, perturb, eval, obs, t_exp, z, keep, result),
        forall|i: int|
            0 <= i < obs.len() ==> is_usable(
                eval.apparent_mags@,
                observations(obs),
                t_exp,
                i,
                eval.apparent_mags@[(#[trigger] obs[i]).band@][i],
            ),
        forall|i: int, ratio: Double, error: Double|
            0 <= i < obs.len() && #[trigger] call_ensures(
                *measure,
                (
                    (#[trigger] obs[i]).five_sigma_depth,
                    eval.apparent_mags@[obs[i].band@][i],
                ),
                (ratio, error),
            ) ==> is_five_or_more(ratio),
    ensures
        result.limits.len() == 0,
        result.points.len() == obs.len(),
        forall|i: int|
            0 <= i < obs.len() ==> (#[trigger] result.points[i]).mjd == obs[i].mjd
                && result.points[i].band == obs[i].band@,
{
    let mags = eval.apparent_mags@;
    let list = observations(obs);
    law_photometry_accounts(seeds, measure, perturb, eval, obs, t_exp, z, keep, result);
    let (pair, trials, used, shown, limited) = choose|
        pair: (u64, u64),
        trials: Seq<Trial>,
        used: Seq<int>,
        shown: Seq<int>,
        limited: Seq<int>,
    |
        call_ensures(*seeds, (t_exp, z), pair) && #[trigger] is_measured_in_turn(
            measure,
            perturb,
            mags,
            list,
            t_exp,
            keep,
            seeded_words(seed_of(pair), usize::BITS as int),
            trials,
            used,
        ) && #[trigger] is_account(
            mags,
            list,
            t_exp,
            trials,
            keep,
            obs.len() as int,
            shown,
            limited,
            result,
        );
    assert forall|i: int| 0 <= i < obs.len() implies is_five_or_more((#[trigger] trials[i]).snr)
        && has_point(mags, list, t_exp, trials, keep, i) by {
        assert(list[i] == obs[i]@);
        assert(call_ensures(
            *measure,
            (obs[i].five_sigma_depth, mags[obs[i].band@][i]),
            (trials[i].snr, trials[i].mag_err),
        ));
    }
    if limited.len() > 0 {
        let i = limited[0];
        assert(list[i] == obs[i]@);
        assert(is_five_or_more(trials[i].snr));
    }
    assert forall|i: int| 0 <= i < obs.len() implies #[trigger] shown.contains(i) by {
        assert(is_five_or_more(trials[i].snr));
        assert(has_point(mags, list, t_exp, trials, keep, i));
    }
    lemma_full(shown, obs.len() as int);
    assert forall|i: int| 0 <= i < obs.len() implies (#[trigger] result.points[i]).mjd
        == obs[i].mjd && result.points[i].band == obs[i].band@ by {
        assert(shown[i] == i);
        assert(list[i] == obs[i]@);
    }
}

/// Ascending places below `n` that leave none out are all places in turn.
proof fn lemma_full(places: Seq<int>, n: int)
    requires
        0 <= n,
        forall|k: int| 0 <= k < places.len() ==> 0 <= (#[trigger] places[k]) < n,
        forall|k: int, l: int|
            0 <= k < l < places.len() ==> (#[trigger] places[k]) < (#[trigger] places[l]),
        forall|i: int| 0 <= i < n ==> #[trigger] places.contains(i),
    ensures
        places.len() == n,
        forall|k: int| 0 <= k < n ==> #[trigger] places[k] == k,
    decreases n,
{
    if n == 0 {
        if places.len() > 0 {
            assert(0 <= places[0] < n);
        }
    } else {
        assert(places.contains(n - 1));
        let k = choose|k: int| 0 <= k < places.len() && places[k] == n - 1;
        if k < places.len() - 1 {
            assert(places[k] < places[k + 1]);
        }
        let rest = places.drop_last();
        assert forall|i: int| 0 <= i < n - 1 implies #[trigger] rest.contains(i) by {
            assert(places.contains(i));
            let j = choose|j: int| 0 <= j < places.len() && places[j] == i;
            assert(rest[j] == i);
        }
        assert forall|j: int| 0 <= j < rest.len() implies 0 <= (#[trigger] rest[j]) < n - 1 by {
            assert(places[j] < places[k]);
        }
        lemma_full(rest, n - 1);
        assert forall|j: int| 0 <= j < n implies #[trigger] places[j] == j by {
            if j < n - 1 {
                assert(places[j] == rest[j]);
            }
        }
    }
}

} // verus!
