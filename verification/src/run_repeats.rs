//! Measuring and judging the same population twice.
use vstd::prelude::*;

use crate::double::Double;
use crate::matching::{
    are_sightings, count_set, covered, flags_of, is_evaluation, is_fetched, is_matching, is_maximum,
    lemma_covered, lemma_successes, paired, successes, Evaluated, Matched, Sighting, SightingView,
    Verdict,
};
use crate::measurement::{can_evaluate, is_measured, is_measurement, Measured, MeasuredView};
use crate::photometry::PhotometryView;
use crate::photometry_laws::{
    is_fixed_measurement, is_fixed_noise, is_fixed_seed, law_photometry_repeats,
};
use crate::pipeline::{
    are_photometry, are_rates, are_sources, at_least_one, is_judged, is_photometry_of, source_of,
    sources_of, PopulationRun, Rates, RunSettings,
};
use crate::sources::{param_views, PopulationInput, SourceView};
use crate::stacking::{BinSummary, StackedValues};
use crate::stacking_laws::is_fixed_time;
use crate::stacking_repeats::{is_fixed_average, law_multi_window_repeats};
use crate::survey::{observations, EvaluationView, LightcurveEvaluation, SurveyObservation};
use crate::windows::is_multi_outcome;

verus! {

/// The views of lists of indices.
pub open spec fn index_views(lists: Seq<Vec<usize>>) -> Seq<Seq<usize>> {
    Seq::new(lists.len(), |i: int| lists[i]@)
}

/// The views of sightings.
pub open spec fn sighting_views(list: Seq<Sighting>) -> Seq<SightingView> {
    Seq::new(list.len(), |i: int| list[i]@)
}

/// The views of lightcurves, where there are any.
pub open spec fn lightcurve_views(list: Seq<Option<LightcurveEvaluation>>) -> Seq<
    Option<EvaluationView>,
> {
    Seq::new(
        list.len(),
        |i: int|
            match list[i] {
                Some(eval) => Some(eval@),
                None => None,
            },
    )
}

/// The views of measured transients.
pub open spec fn measured_views(list: Seq<Measured>) -> Seq<MeasuredView> {
    Seq::new(list.len(), |i: int| list[i]@)
}

/// The exposures found depend on the population and the time window alone.
pub open spec fn is_fixed_query<Q: Fn(&PopulationInput, Double) -> Vec<Vec<usize>>>(
    query: &Q,
) -> bool {
    forall|a: PopulationInput, b: PopulationInput, days: Double, r: Vec<Vec<usize>>, s: Vec<
        Vec<usize>,
    >|
        a@ == b@ && #[trigger] call_ensures(*query, (&a, days), r) && #[trigger] call_ensures(
            *query,
            (&b, days),
            s,
        ) ==> index_views(r@) == index_views(s@)
}

/// An exposure depends on its index alone.
pub open spec fn is_fixed_fetch<F: Fn(usize) -> SurveyObservation>(fetch: &F) -> bool {
    forall|i: usize, r: SurveyObservation, s: SurveyObservation| #[trigger]
        call_ensures(*fetch, (i,), r) && #[trigger] call_ensures(*fetch, (i,), s) ==> r@ == s@
}

/// Models of the same name give the same lightcurves for the same transients and exposures.
pub open spec fn are_alike<
    E: Fn(&PopulationInput, usize, &Vec<Sighting>) -> Vec<Option<LightcurveEvaluation>>,
    T: Fn(&PopulationInput, usize, &Vec<Sighting>) -> Vec<Option<LightcurveEvaluation>>,
>(evaluate: (&E, &T), names: (Seq<String>, Seq<String>)) -> bool {
    forall|
        a: PopulationInput,
        b: PopulationInput,
        i: usize,
        j: usize,
        x: Vec<Sighting>,
        y: Vec<Sighting>,
        r: Vec<Option<LightcurveEvaluation>>,
        s: Vec<Option<LightcurveEvaluation>>,
    |
        i < names.0.len() && j < names.1.len() && names.0[i as int]@ == names.1[j as int]@ && a@
            == b@ && sighting_views(x@) == sighting_views(y@) && #[trigger] call_ensures(
            *evaluate.0,
            (&a, i, &x),
            r,
        ) && #[trigger] call_ensures(*evaluate.1, (&b, j, &y), s) ==> lightcurve_views(r@)
            == lightcurve_views(s@)
}

/// Verdicts depend on the population and the measurements alone.
pub open spec fn is_fixed_verdict<D: Fn(&PopulationInput, &Vec<Measured>) -> Vec<Verdict>>(
    detect: &D,
) -> bool {
    forall|
        a: PopulationInput,
        b: PopulationInput,
        x: Vec<Measured>,
        y: Vec<Measured>,
        r: Vec<Verdict>,
        s: Vec<Verdict>,
    |
        a@ == b@ && measured_views(x@) == measured_views(y@) && #[trigger] call_ensures(
            *detect,
            (&a, &x),
            r,
        ) && #[trigger] call_ensures(*detect, (&b, &y), s) ==> r@ == s@
}

/// Rates depend on the population, the divisor, the flags, the detections and the largest redshift
/// alone.
pub open spec fn is_fixed_rate<
    R: Fn(&PopulationInput, usize, &Vec<bool>, usize, Double) -> Rates,
>(integrate: &R) -> bool {
    forall|
        a: PopulationInput,
        b: PopulationInput,
        n: usize,
        x: Vec<bool>,
        y: Vec<bool>,
        k: usize,
        z: Double,
        r: Rates,
        s: Rates,
    |
        a@ == b@ && x@ == y@ && #[trigger] call_ensures(*integrate, (&a, n, &x, k, z), r)
            && #[trigger] call_ensures(*integrate, (&b, n, &y, k, z), s) ==> r == s
}

/// The same exposures cover the same transients.
proof fn lemma_same_covered(a: Seq<Vec<usize>>, b: Seq<Vec<usize>>)
    requires
        index_views(a) == index_views(b),
    ensures
        covered(a) == covered(b),
    decreases a.len(),
{
    assert(index_views(a).len() == a.len() && index_views(b).len() == b.len());
    if a.len() > 0 {
        let (x, y) = (a.drop_last(), b.drop_last());
        assert forall|i: int| 0 <= i < x.len() implies index_views(x)[i] == index_views(y)[i] by {
            assert(index_views(a)[i] == index_views(b)[i]);
        }
        assert(index_views(x) =~= index_views(y));
        lemma_same_covered(x, y);
        assert(index_views(a)[a.len() - 1] == index_views(b)[a.len() - 1]);
    }
}

/// The same exposures found give the same sightings.
proof fn lemma_same_sightings<F: Fn(usize) -> SurveyObservation>(
    fetch: &F,
    queries: (Seq<Vec<usize>>, Seq<Vec<usize>>),
    matched: (Seq<Matched>, Seq<Matched>),
    sightings: (Seq<Sighting>, Seq<Sighting>),
)
    requires
        is_fixed_fetch(fetch),
        index_views(queries.0) == index_views(queries.1),
        is_matching(queries.0, matched.0),
        is_matching(queries.1, matched.1),
        are_sightings(fetch, matched.0, sightings.0),
        are_sightings(fetch, matched.1, sightings.1),
    ensures
        sighting_views(sightings.0) == sighting_views(sightings.1),
{
    lemma_same_covered(queries.0, queries.1);
    lemma_covered(queries.0);
    let at = covered(queries.0);
    assert(index_views(queries.0).len() == queries.0.len());
    assert forall|k: int| 0 <= k < at.len() implies sightings.0[k]@ == sightings.1[k]@ by {
        let (x, y) = (sightings.0[k], sightings.1[k]);
        assert(x.instance == matched.0[k].instance && y.instance == matched.1[k].instance);
        assert(matched.0[k].instance == at[k] && matched.1[k].instance == at[k]);
        assert(index_views(queries.0)[at[k]] == index_views(queries.1)[at[k]]);
        let indices = matched.0[k].observations@;
        assert(indices == matched.1[k].observations@);
        assert(is_fetched(fetch, indices, x.observations@));
        assert(is_fetched(fetch, indices, y.observations@));
        assert forall|i: int| 0 <= i < indices.len() implies x.observations@[i]@
            == y.observations@[i]@ by {
            assert(call_ensures(*fetch, (indices[i],), x.observations@[i]));
            assert(call_ensures(*fetch, (indices[i],), y.observations@[i]));
        }
        assert(observations(x.observations@) =~= observations(y.observations@));
    }
    assert(sighting_views(sightings.0) =~= sighting_views(sightings.1));
}

/// Lightcurves are there at the same places.
proof fn lemma_same_successes(
    a: Seq<Option<LightcurveEvaluation>>,
    b: Seq<Option<LightcurveEvaluation>>,
    n: int,
)
    requires
        lightcurve_views(a) == lightcurve_views(b),
        n <= a.len(),
    ensures
        successes(a, n) == successes(b, n),
    decreases n,
{
    if n > 0 {
        lemma_same_successes(a, b, n - 1);
        assert(lightcurve_views(a).len() == a.len() && lightcurve_views(b).len() == b.len());
        assert(lightcurve_views(a)[n - 1] == lightcurve_views(b)[n - 1]);
    }
}

/// The evaluated transients say the same.
pub open spec fn evaluated_alike(a: Seq<Evaluated>, b: Seq<Evaluated>) -> bool {
    &&& a.len() == b.len()
    &&& forall|k: int|
        0 <= k < a.len() ==> (#[trigger] a[k]).instance == b[k].instance && observations(
            a[k].observations@,
        ) == observations(b[k].observations@) && a[k].eval@ == b[k].eval@
}

proof fn lemma_same_evaluated<
    E: Fn(&PopulationInput, usize, &Vec<Sighting>) -> Vec<Option<LightcurveEvaluation>>,
    T: Fn(&PopulationInput, usize, &Vec<Sighting>) -> Vec<Option<LightcurveEvaluation>>,
    F: Fn(usize) -> SurveyObservation,
>(
    evaluate: (&E, &T),
    names: (Seq<String>, Seq<String>),
    fetch: &F,
    input: (&PopulationInput, &PopulationInput),
    model: (usize, usize),
    queries: (Seq<Vec<usize>>, Seq<Vec<usize>>),
    a: Seq<Evaluated>,
    b: Seq<Evaluated>,
)
    requires
        are_alike(evaluate, names),
        is_fixed_fetch(fetch),
        input.0@ == input.1@,
        model.0 < names.0.len(),
        model.1 < names.1.len(),
        names.0[model.0 as int]@ == names.1[model.1 as int]@,
        index_views(queries.0) == index_views(queries.1),
        can_evaluate(evaluate.0, fetch, input.0, model.0, queries.0, a),
        can_evaluate(evaluate.1, fetch, input.1, model.1, queries.1, b),
    ensures
        evaluated_alike(a, b),
{
    let (m, x, r) = choose|
        matched: Seq<Matched>,
        sightings: Vec<Sighting>,
        results: Vec<Option<LightcurveEvaluation>>,
    |
        is_matching(queries.0, matched) && #[trigger] are_sightings(fetch, matched, sightings@)
            && #[trigger] call_ensures(*evaluate.0, (input.0, model.0, &sightings), results)
            && is_evaluation(
            sightings@,
            results@,
            a,
            paired(sightings@.len(), results@.len()),
        );
    let (n, y, s) = choose|
        matched: Seq<Matched>,
        sightings: Vec<Sighting>,
        results: Vec<Option<LightcurveEvaluation>>,
    |
        is_matching(queries.1, matched) && #[trigger] are_sightings(fetch, matched, sightings@)
            && #[trigger] call_ensures(*evaluate.1, (input.1, model.1, &sightings), results)
            && is_evaluation(
            sightings@,
            results@,
            b,
            paired(sightings@.len(), results@.len()),
        );
    lemma_same_sightings(fetch, queries, (m, n), (x@, y@));
    assert(lightcurve_views(r@) == lightcurve_views(s@));
    assert(sighting_views(x@).len() == x@.len() && sighting_views(y@).len() == y@.len());
    assert(lightcurve_views(r@).len() == r@.len() && lightcurve_views(s@).len() == s@.len());
    let count = paired(x@.len(), r@.len());
    lemma_same_successes(r@, s@, count);
    lemma_successes(r@, count);
    let at = successes(r@, count);
    assert forall|k: int| 0 <= k < a.len() implies (#[trigger] a[k]).instance == b[k].instance
        && observations(a[k].observations@) == observations(b[k].observations@) && a[k].eval@
        == b[k].eval@ by {
        let p = at[k];
        assert(sighting_views(x@)[p] == sighting_views(y@)[p]);
        assert(x@[p]@ == y@[p]@);
        assert(x@[p]@.observations == observations(x@[p].observations@));
        assert(y@[p]@.observations == observations(y@[p].observations@));
        assert(x@[p]@.instance == x@[p].instance && y@[p]@.instance == y@[p].instance);
        assert(lightcurve_views(r@)[p] == lightcurve_views(s@)[p]);
        assert(b[k].eval == s@[p]->0);
    }
}

/// The time windows that are stacked at: none if there is no list.
pub open spec fn window_list(windows: Option<Vec<Double>>) -> Seq<Double> {
    match windows {
        Some(list) => list@,
        None => Seq::empty(),
    }
}

/// The same population is measured the same way each time.
pub proof fn law_measurement_repeats<
    E: Fn(&PopulationInput, usize, &Vec<Sighting>) -> Vec<Option<LightcurveEvaluation>>,
    T: Fn(&PopulationInput, usize, &Vec<Sighting>) -> Vec<Option<LightcurveEvaluation>>,
    F: Fn(usize) -> SurveyObservation,
    L: Fn(Double, Double) -> Double,
    C: Fn(&BinSummary) -> StackedValues,
>(
    evaluate: (&E, &T),
    names: (Seq<String>, Seq<String>),
    fetch: &F,
    elapsed: &L,
    average: &C,
    input: (&PopulationInput, &PopulationInput),
    model: (usize, usize),
    queries: (Seq<Vec<usize>>, Seq<Vec<usize>>),
    windows: (Option<Vec<Double>>, Option<Vec<Double>>),
    a: Seq<Measured>,
    b: Seq<Measured>,
)
    requires
        are_alike(evaluate, names),
        is_fixed_fetch(fetch),
        is_fixed_time(elapsed),
        is_fixed_average(average),
        input.0@ == input.1@,
        model.0 < names.0.len(),
        model.1 < names.1.len(),
        names.0[model.0 as int]@ == names.1[model.1 as int]@,
        index_views(queries.0) == index_views(queries.1),
        window_list(windows.0) == window_list(windows.1),
        is_measurement(
            evaluate.0,
            fetch,
            elapsed,
            average,
            input.0,
            model.0,
            queries.0,
            windows.0,
            a,
        ),
        is_measurement(
            evaluate.1,
            fetch,
            elapsed,
            average,
            input.1,
            model.1,
            queries.1,
            windows.1,
            b,
        ),
    ensures
        measured_views(a) == measured_views(b),
{
    let x = choose|evaluated: Seq<Evaluated>| #[trigger]
        can_evaluate(evaluate.0, fetch, input.0, model.0, queries.0, evaluated) && evaluated.len()
            == a.len() && (forall|k: int|
            0 <= k < a.len() ==> is_measured(
                elapsed,
                average,
                windows.0,
                evaluated[k],
                #[trigger] a[k],
            ));
    let y = choose|evaluated: Seq<Evaluated>| #[trigger]
        can_evaluate(evaluate.1, fetch, input.1, model.1, queries.1, evaluated) && evaluated.len()
            == b.len() && (forall|k: int|
            0 <= k < b.len() ==> is_measured(
                elapsed,
                average,
                windows.1,
                evaluated[k],
                #[trigger] b[k],
            ));
    lemma_same_evaluated(evaluate, names, fetch, input, model, queries, x, y);
    let list = window_list(windows.0);
    assert forall|k: int| 0 <= k < a.len() implies a[k]@ == b[k]@ by {
        assert(is_measured(elapsed, average, windows.0, x[k], a[k]));
        assert(is_measured(elapsed, average, windows.1, y[k], b[k]));
        assert(x[k].instance == y[k].instance);
        let evals = (&x[k].eval, &y[k].eval);
        let obs = (x[k].observations@, y[k].observations@);
        assert(is_multi_outcome(elapsed, average, list, evals.0, obs.0, a[k].series));
        assert(is_multi_outcome(elapsed, average, list, evals.1, obs.1, b[k].series));
        law_multi_window_repeats(elapsed, average, list, evals, obs, a[k].series, b[k].series);
    }
    assert(measured_views(a) =~= measured_views(b));
}

/// The largest redshift is one number.
proof fn lemma_maximum_unique(values: Seq<Double>, a: Double, b: Double)
    requires
        is_maximum(values, a),
        is_maximum(values, b),
    ensures
        a == b,
{
    assert(a.rank() == b.rank());
}

/// Two runs of a population say the same.
pub open spec fn runs_alike(a: PopulationRun, b: PopulationRun) -> bool {
    &&& a.input@ == b.input@
    &&& a.n_transients == b.n_transients
    &&& measured_views(a.measured@) == measured_views(b.measured@)
    &&& a.detected@ == b.detected@
}

/// The same measurements are judged the same way each time.
pub proof fn law_verdicts_repeat<D: Fn(&PopulationInput, &Vec<Measured>) -> Vec<Verdict>>(
    detect: &D,
    settings: (RunSettings, RunSettings),
    input: (&PopulationInput, &PopulationInput),
    a: PopulationRun,
    b: PopulationRun,
)
    requires
        is_fixed_verdict(detect),
        settings.0.cuts == settings.1.cuts,
        settings.0.n_transients == settings.1.n_transients,
        input.0@ == input.1@,
        measured_views(a.measured@) == measured_views(b.measured@),
        is_judged(detect, settings.0, input.0, a),
        is_judged(detect, settings.1, input.1, b),
    ensures
        runs_alike(a, b),
{
}

/// The places and redshifts of runs that say the same are the same.
proof fn lemma_same_places(a: PopulationRun, b: PopulationRun)
    requires
        runs_alike(a, b),
    ensures
        a.input.instances@.len() == b.input.instances@.len(),
        a.places() == b.places(),
        a.redshifts() == b.redshifts(),
        a.input.transient_type@ == b.input.transient_type@,
        a.input.volumetric_rate == b.input.volumetric_rate,
        forall|i: int|
            0 <= i < a.input.instances@.len() ==> (#[trigger] a.input.instances@[i])@
                == b.input.instances@[i]@,
        a.measured@.len() == b.measured@.len(),
        forall|k: int| 0 <= k < a.measured@.len() ==> (#[trigger] a.measured@[k])@ == b.measured@[k]@,
{
    let (x, y) = (a.input@, b.input@);
    assert(x.instances.len() == a.input.instances@.len());
    assert(y.instances.len() == b.input.instances@.len());
    assert forall|i: int| 0 <= i < a.input.instances@.len() implies (
    #[trigger] a.input.instances@[i])@ == b.input.instances@[i]@ by {
        assert(x.instances[i] == y.instances[i]);
    }
    assert(measured_views(a.measured@).len() == a.measured@.len());
    assert(measured_views(b.measured@).len() == b.measured@.len());
    assert forall|k: int| 0 <= k < a.measured@.len() implies (#[trigger] a.measured@[k])@
        == b.measured@[k]@ by {
        assert(measured_views(a.measured@)[k] == measured_views(b.measured@)[k]);
    }
    assert(a.places() =~= b.places()) by {
        assert forall|k: int| 0 <= k < a.measured@.len() implies a.places()[k] == b.places()[k] by {
            assert(a.measured@[k]@.instance == a.measured@[k].instance);
            assert(b.measured@[k]@.instance == b.measured@[k].instance);
        }
    }
    assert(a.redshifts() =~= b.redshifts()) by {
        assert forall|i: int| 0 <= i < a.input.instances@.len() implies a.redshifts()[i]
            == b.redshifts()[i] by {
            assert(a.input.instances@[i]@.z == a.input.instances@[i].z);
            assert(b.input.instances@[i]@.z == b.input.instances@[i].z);
        }
    }
}

/// Runs that say the same have the same rates and the same largest redshift.
pub proof fn law_rates_repeat<
    R: Fn(&PopulationInput, usize, &Vec<bool>, usize, Double) -> Rates,
>(
    integrate: &R,
    a: PopulationRun,
    b: PopulationRun,
    rates: (Rates, Rates),
    z_max: (Double, Double),
)
    requires
        is_fixed_rate(integrate),
        runs_alike(a, b),
        are_rates(integrate, a, rates.0),
        are_rates(integrate, b, rates.1),
        is_maximum(a.redshifts(), z_max.0),
        is_maximum(b.redshifts(), z_max.1),
    ensures
        rates.0 == rates.1,
        z_max.0 == z_max.1,
{
    lemma_same_places(a, b);
    lemma_maximum_unique(a.redshifts(), z_max.0, z_max.1);
    let count = count_set(a.detected@) as usize;
    let n = at_least_one(a.n_transients);
    let (f, y) = choose|flags: Vec<bool>, z: Double|
        flags@ == flags_of(a.input.instances@.len(), a.places(), a.detected@) && is_maximum(
            a.redshifts(),
            z,
        ) && #[trigger] call_ensures(*integrate, (a.input, n, &flags, count, z), rates.0);
    let (g, z) = choose|flags: Vec<bool>, z: Double|
        flags@ == flags_of(b.input.instances@.len(), b.places(), b.detected@) && is_maximum(
            b.redshifts(),
            z,
        ) && #[trigger] call_ensures(*integrate, (b.input, n, &flags, count, z), rates.1);
    lemma_maximum_unique(a.redshifts(), y, z);
}

/// Where photometry is the same, sources are.
proof fn lemma_same_sources(
    a: PopulationRun,
    b: PopulationRun,
    detected: bool,
    x: Seq<PhotometryView>,
    y: Seq<PhotometryView>,
    n: int,
)
    requires
        a.wf(),
        b.wf(),
        runs_alike(a, b),
        n <= a.measured@.len(),
        forall|k: int| 0 <= k < n && a.detected@[k] == detected ==> #[trigger] x[k] == y[k],
    ensures
        sources_of(a, detected, x, n) == sources_of(b, detected, y, n),
    decreases n,
{
    if n > 0 {
        lemma_same_sources(a, b, detected, x, y, n - 1);
        lemma_same_places(a, b);
        let k = n - 1;
        assert(a.places()[k] == b.places()[k]);
        let i = a.places()[k] as int;
        assert(a.measured@[k].instance == i && b.measured@[k].instance == i);
        assert(a.input.instances@[i]@ == b.input.instances@[i]@);
        assert(a.input.instances@[i]@.model_params == param_views(
            a.input.instances@[i].model_params@,
        ));
        assert(b.input.instances@[i]@.model_params == param_views(
            b.input.instances@[i].model_params@,
        ));
        if a.detected@[k] == detected {
            assert(x[k] == y[k]);
            assert(source_of(a, k, x[k]) == source_of(b, k, y[k]));
        }
    }
}

/// Runs that say the same have the same sources.
pub proof fn law_sources_repeat<
    K: Fn(Double, Double) -> (u64, u64),
    M: Fn(Double, Double) -> (Double, Double),
    P: Fn(Double, Double, u64, u64) -> Double,
>(
    seeds: &K,
    measure: &M,
    perturb: &P,
    a: PopulationRun,
    b: PopulationRun,
    detected: bool,
    first: Seq<SourceView>,
    second: Seq<SourceView>,
)
    requires
        is_fixed_seed(seeds),
        is_fixed_measurement(measure),
        is_fixed_noise(perturb),
        a.wf(),
        b.wf(),
        runs_alike(a, b),
        are_sources(seeds, measure, perturb, a, detected, first),
        are_sources(seeds, measure, perturb, b, detected, second),
    ensures
        first == second,
{
    lemma_same_places(a, b);
    let x = choose|photometry: Seq<PhotometryView>|
        photometry.len() == a.measured@.len() && #[trigger] are_photometry(
            seeds,
            measure,
            perturb,
            a,
            detected,
            photometry,
        ) && first == sources_of(a, detected, photometry, photometry.len() as int);
    let y = choose|photometry: Seq<PhotometryView>|
        photometry.len() == b.measured@.len() && #[trigger] are_photometry(
            seeds,
            measure,
            perturb,
            b,
            detected,
            photometry,
        ) && second == sources_of(b, detected, photometry, photometry.len() as int);
    assert forall|k: int| 0 <= k < x.len() && a.detected@[k] == detected implies #[trigger] x[k]
        == y[k] by {
        assert(is_photometry_of(seeds, measure, perturb, a, k, x[k]));
        assert(is_photometry_of(seeds, measure, perturb, b, k, y[k]));
        assert(a.places()[k] == b.places()[k]);
        let i = a.places()[k] as int;
        assert(a.measured@[k].instance == i && b.measured@[k].instance == i);
        let (s, t) = (a.input.instances@[i], b.input.instances@[i]);
        assert(s@ == t@);
        assert(s@.t_exp == s.t_exp && t@.t_exp == t.t_exp && s@.z == s.z && t@.z == t.z);
        let (m, n) = (a.measured@[k].series, b.measured@[k].series);
        assert(a.measured@[k]@ == b.measured@[k]@);
        assert(a.measured@[k]@.series == m@ && b.measured@[k]@.series == n@);
        assert(m@.observations == observations(m.observations@));
        assert(n@.observations == observations(n.observations@));
        assert(m@.evaluation.mags == m.evaluation.apparent_mags@);
        assert(n@.evaluation.mags == n.evaluation.apparent_mags@);
        law_photometry_repeats(
            seeds,
            measure,
            perturb,
            (&m.evaluation, &n.evaluation),
            (m.observations@, n.observations@),
            s.t_exp,
            s.z,
            !a.detected@[k],
            x[k],
            y[k],
        );
    }
    lemma_same_sources(a, b, detected, x, y, x.len() as int);
}

} // verus!
