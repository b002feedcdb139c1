//! Which transients come through matching and evaluation.
use vstd::prelude::*;

use crate::double::Double;
use crate::matching::{
    are_sightings, covered, is_evaluation, is_fetched, is_matching, law_evaluated_once,
    lemma_covered, lemma_successes, paired, successes, Evaluated, Matched, Sighting,
};
use crate::measurement::{can_evaluate, is_measured, is_measurement, is_series, Measured};
use crate::sources::PopulationInput;
use crate::stacking::{BinSummary, StackedValues};
use crate::survey::{LightcurveEvaluation, SurveyObservation};

verus! {

/// A transient is matched if and only if some exposure was found for it, and it is matched once,
/// in its order, with all its exposures.
pub open spec fn are_all_covered(queries: Seq<Vec<usize>>, matched: Seq<Matched>) -> bool {
    &&& forall|i: int|
        0 <= i < queries.len() ==> ((#[trigger] queries[i])@.len() > 0 <==> exists|k: int|
            0 <= k < matched.len() && (#[trigger] matched[k]).instance == i)
    &&& forall|k: int|
        0 <= k < matched.len() ==> (#[trigger] matched[k]).instance < queries.len()
            && matched[k].observations@ == queries[matched[k].instance as int]@
    &&& forall|k: int, l: int|
        0 <= k < l < matched.len() ==> (#[trigger] matched[k]).instance < (
        #[trigger] matched[l]).instance
}

/// Matching finds every transient that some exposure covers, and no other.
pub proof fn law_every_covered_is_matched(queries: Seq<Vec<usize>>, matched: Seq<Matched>)
    requires
        is_matching(queries, matched),
    ensures
        are_all_covered(queries, matched),
{
    lemma_covered(queries);
    let all = covered(queries);
    assert forall|k: int| 0 <= k < matched.len() implies (#[trigger] matched[k]).instance
        < queries.len() && matched[k].observations@ == queries[matched[k].instance as int]@ by {
        assert(matched[k].instance == all[k]);
    }
    assert forall|i: int| 0 <= i < queries.len() implies ((#[trigger] queries[i])@.len() > 0
        <==> exists|k: int| 0 <= k < matched.len() && (#[trigger] matched[k]).instance == i) by {
        if queries[i]@.len() > 0 {
            assert(all.contains(i));
            let k = choose|k: int| 0 <= k < all.len() && all[k] == i;
            assert(matched[k].instance == i);
        }
        if exists|k: int| 0 <= k < matched.len() && (#[trigger] matched[k]).instance == i {
            let k = choose|k: int| 0 <= k < matched.len() && (#[trigger] matched[k]).instance == i;
            assert(matched[k].instance == all[k]);
        }
    }
    assert forall|k: int, l: int| 0 <= k < l < matched.len() implies (
    #[trigger] matched[k]).instance < (#[trigger] matched[l]).instance by {
        assert(matched[k].instance == all[k] && matched[l].instance == all[l]);
    }
}

/// The places with results below `n` are all the places with results below `n`.
proof fn lemma_successes_complete(results: Seq<Option<LightcurveEvaluation>>, n: int, i: int)
    requires
        0 <= i < n,
        results[i] is Some,
    ensures
        exists|k: int| 0 <= k < successes(results, n).len() && #[trigger] successes(results, n)[k] == i,
    decreases n,
{
    let before = successes(results, n - 1);
    let all = successes(results, n);
    if i < n - 1 {
        lemma_successes_complete(results, n - 1, i);
        let k = choose|k: int| 0 <= k < before.len() && #[trigger] before[k] == i;
        assert(all[k] == i);
    } else {
        assert(all[all.len() - 1] == i);
    }
}

/// An evaluated transient is sighting `i` with the lightcurve that the model gave for it.
pub open spec fn is_evaluated_from(
    sightings: Seq<Sighting>,
    results: Seq<Option<LightcurveEvaluation>>,
    i: int,
    evaluated: Evaluated,
) -> bool {
    &&& 0 <= i < sightings.len()
    &&& i < results.len()
    &&& results[i] == Some(evaluated.eval)
    &&& evaluated.instance == sightings[i].instance
    &&& evaluated.observations@ == sightings[i].observations@
}

/// An evaluated transient is one of the sightings with the lightcurve that the model gave for it.
pub open spec fn is_evaluated(
    sightings: Seq<Sighting>,
    results: Seq<Option<LightcurveEvaluation>>,
    evaluated: Evaluated,
) -> bool {
    exists|i: int| is_evaluated_from(sightings, results, i, evaluated)
}

/// No lightcurve is lost: every sighting that a lightcurve came back for is evaluated, with its own
/// exposures and that lightcurve, and nothing else is.
pub proof fn law_every_lightcurve_is_kept(
    sightings: Seq<Sighting>,
    results: Seq<Option<LightcurveEvaluation>>,
    evaluated: Seq<Evaluated>,
)
    requires
        is_evaluation(sightings, results, evaluated, paired(sightings.len(), results.len())),
    ensures
        forall|i: int|
            0 <= i < sightings.len() && i < results.len() && #[trigger] results[i] is Some
                ==> exists|k: int|
                0 <= k < evaluated.len() && is_evaluated_from(
                    sightings,
                    results,
                    i,
                    #[trigger] evaluated[k],
                ),
        forall|k: int|
            0 <= k < evaluated.len() ==> is_evaluated(sightings, results, #[trigger] evaluated[k]),
        evaluated.len() <= sightings.len(),
        evaluated.len() <= results.len(),
{
    let n = paired(sightings.len(), results.len());
    lemma_successes(results, n);
    let at = successes(results, n);
    assert forall|k: int| 0 <= k < evaluated.len() implies is_evaluated(
        sightings,
        results,
        #[trigger] evaluated[k],
    ) by {
        assert(0 <= at[k] < n);
        assert(is_evaluated_from(sightings, results, at[k], evaluated[k]));
    }
    assert forall|i: int|
        0 <= i < sightings.len() && i < results.len() && #[trigger] results[i] is Some implies exists|
        k: int,
    |
        0 <= k < evaluated.len() && is_evaluated_from(sightings, results, i, #[trigger] evaluated[k]) by {
        lemma_successes_complete(results, n, i);
        let k = choose|k: int| 0 <= k < at.len() && #[trigger] at[k] == i;
        assert(is_evaluated_from(sightings, results, i, evaluated[k]));
    }
    lemma_successes_count(results, n);
}

proof fn lemma_successes_count(results: Seq<Option<LightcurveEvaluation>>, n: int)
    requires
        0 <= n,
    ensures
        successes(results, n).len() <= n,
    decreases n,
{
    if n > 0 {
        lemma_successes_count(results, n - 1);
    }
}

/// Where a lightcurve comes back for every sighting, everything is evaluated, place by place.
pub proof fn law_all_evaluated(
    sightings: Seq<Sighting>,
    results: Seq<Option<LightcurveEvaluation>>,
    evaluated: Seq<Evaluated>,
)
    requires
        is_evaluation(sightings, results, evaluated, paired(sightings.len(), results.len())),
        results.len() == sightings.len(),
        forall|i: int| 0 <= i < results.len() ==> #[trigger] results[i] is Some,
    ensures
        evaluated.len() == sightings.len(),
        forall|k: int|
            0 <= k < evaluated.len() ==> is_evaluated_from(
                sightings,
                results,
                k,
                #[trigger] evaluated[k],
            ),
{
    let n = sightings.len() as int;
    lemma_all_successes(results, n);
    assert forall|k: int| 0 <= k < evaluated.len() implies is_evaluated_from(
        sightings,
        results,
        k,
        #[trigger] evaluated[k],
    ) by {
        assert(successes(results, n)[k] == k);
    }
}

proof fn lemma_all_successes(results: Seq<Option<LightcurveEvaluation>>, n: int)
    requires
        0 <= n <= results.len(),
        forall|i: int| 0 <= i < results.len() ==> #[trigger] results[i] is Some,
    ensures
        successes(results, n).len() == n,
        forall|k: int| 0 <= k < n ==> #[trigger] successes(results, n)[k] == k,
    decreases n,
{
    if n > 0 {
        lemma_all_successes(results, n - 1);
        let (before, all) = (successes(results, n - 1), successes(results, n));
        assert forall|k: int| 0 <= k < n implies #[trigger] all[k] == k by {
            if k < n - 1 {
                assert(all[k] == before[k]);
            }
        }
    }
}

/// The exposures are those that `fetch` can give for the indices, one for each and in their order.
pub open spec fn are_exposures_at<F: Fn(usize) -> SurveyObservation>(
    fetch: &F,
    indices: Seq<usize>,
    exposures: Seq<SurveyObservation>,
) -> bool {
    &&& exposures.len() == indices.len()
    &&& forall|i: int|
        0 <= i < indices.len() ==> call_ensures(*fetch, (#[trigger] indices[i],), exposures[i])
}

/// Fetching gives one exposure for each index, in their order.
pub proof fn law_fetched_one_by_one<F: Fn(usize) -> SurveyObservation>(
    fetch: &F,
    indices: Seq<usize>,
    exposures: Seq<SurveyObservation>,
)
    requires
        is_fetched(fetch, indices, exposures),
    ensures
        are_exposures_at(fetch, indices, exposures),
{
    assert forall|i: int| 0 <= i < indices.len() implies call_ensures(
        *fetch,
        (#[trigger] indices[i],),
        exposures[i],
    ) by {
        assert(exposures[i] == exposures[i]);
    }
}

/// A transient of a population is measured with the exposures found for it and a lightcurve that
/// the model gave for them.
pub open spec fn is_measured_from<
    F: Fn(usize) -> SurveyObservation,
    L: Fn(Double, Double) -> Double,
    C: Fn(&BinSummary) -> StackedValues,
>(
    fetch: &F,
    elapsed: &L,
    average: &C,
    queries: Seq<Vec<usize>>,
    windows_days: Option<Vec<Double>>,
    sighting: Sighting,
    result: Option<LightcurveEvaluation>,
    measured: Measured,
) -> bool {
    &&& result is Some
    &&& measured.instance == sighting.instance
    &&& sighting.instance < queries.len()
    &&& are_exposures_at(fetch, queries[sighting.instance as int]@, sighting.observations@)
    &&& exists|observations: Seq<SurveyObservation>|
        observations == sighting.observations@ && #[trigger] is_series(
            elapsed,
            average,
            windows_days,
            &result->0,
            observations,
            measured.series,
        )
}

/// The model is asked about the transients that some exposure was found for, one sighting each and
/// in their order, and exactly those that it has a lightcurve for are measured, once each and in
/// their order.
pub proof fn law_measured_transients<
    E: Fn(&PopulationInput, usize, &Vec<Sighting>) -> Vec<Option<LightcurveEvaluation>>,
    F: Fn(usize) -> SurveyObservation,
    L: Fn(Double, Double) -> Double,
    C: Fn(&BinSummary) -> StackedValues,
>(
    evaluate: &E,
    fetch: &F,
    elapsed: &L,
    average: &C,
    input: &PopulationInput,
    model: usize,
    queries: Seq<Vec<usize>>,
    windows_days: Option<Vec<Double>>,
    measured: Seq<Measured>,
)
    requires
        is_measurement(
            evaluate,
            fetch,
            elapsed,
            average,
            input,
            model,
            queries,
            windows_days,
            measured,
        ),
    ensures
        exists|sightings: Vec<Sighting>, results: Vec<Option<LightcurveEvaluation>>|
            are_asked(queries, sightings@) && #[trigger] call_ensures(
                *evaluate,
                (input, model, &sightings),
                results,
            ) && are_all_measured(
                fetch,
                elapsed,
                average,
                queries,
                windows_days,
                sightings@,
                results@,
                measured,
            ),
{
    let evaluated = choose|evaluated: Seq<Evaluated>| #[trigger]
        can_evaluate(evaluate, fetch, input, model, queries, evaluated) && evaluated.len()
            == measured.len() && (forall|k: int|
            0 <= k < measured.len() ==> is_measured(
                elapsed,
                average,
                windows_days,
                evaluated[k],
                #[trigger] measured[k],
            ));
    let (matched, sightings, results) = choose|
        matched: Seq<Matched>,
        sightings: Vec<Sighting>,
        results: Vec<Option<LightcurveEvaluation>>,
    |
        is_matching(queries, matched) && #[trigger] are_sightings(fetch, matched, sightings@)
            && #[trigger] call_ensures(*evaluate, (input, model, &sightings), results)
            && is_evaluation(
            sightings@,
            results@,
            evaluated,
            paired(sightings@.len(), results@.len()),
        );
    law_every_covered_is_matched(queries, matched);
    law_every_lightcurve_is_kept(sightings@, results@, evaluated);
    law_evaluated_once(fetch, queries, matched, sightings@, results@, evaluated);
    assert(are_asked(queries, sightings@)) by {
        assert forall|i: int| 0 <= i < queries.len() implies ((#[trigger] queries[i])@.len() > 0
            <==> exists|k: int|
            0 <= k < sightings@.len() && (#[trigger] sightings@[k]).instance == i) by {
            if queries[i]@.len() > 0 {
                let k = choose|k: int|
                    0 <= k < matched.len() && (#[trigger] matched[k]).instance == i;
                assert(sightings@[k].instance == i);
            }
            if exists|k: int| 0 <= k < sightings@.len() && (#[trigger] sightings@[k]).instance == i {
                let k = choose|k: int|
                    0 <= k < sightings@.len() && (#[trigger] sightings@[k]).instance == i;
                assert(matched[k].instance == i);
            }
        }
        assert forall|k: int| 0 <= k < sightings@.len() implies (
        #[trigger] sightings@[k]).instance < queries.len() by {
            assert(matched[k].instance == sightings@[k].instance);
        }
        assert forall|k: int, l: int| 0 <= k < l < sightings@.len() implies (
        #[trigger] sightings@[k]).instance < (#[trigger] sightings@[l]).instance by {
            assert(matched[k].instance < matched[l].instance);
        }
    }
    assert forall|i: int, k: int|
        0 <= k < measured.len() && #[trigger] is_evaluated_from(
            sightings@,
            results@,
            i,
            evaluated[k],
        ) implies is_measured_from(
        fetch,
        elapsed,
        average,
        queries,
        windows_days,
        sightings@[i],
        results@[i],
        measured[k],
    ) by {
        assert(is_measured(elapsed, average, windows_days, evaluated[k], measured[k]));
        assert(sightings@[i].instance == matched[i].instance);
        law_fetched_one_by_one(
            fetch,
            queries[sightings@[i].instance as int]@,
            sightings@[i].observations@,
        );
        assert(is_series(
            elapsed,
            average,
            windows_days,
            &results@[i]->0,
            evaluated[k].observations@,
            measured[k].series,
        ));
    }
    assert forall|i: int|
        0 <= i < sightings@.len() && i < results@.len() && #[trigger] results@[i] is Some implies exists|
        k: int,
    |
        0 <= k < measured.len() && is_measured_from(
            fetch,
            elapsed,
            average,
            queries,
            windows_days,
            sightings@[i],
            results@[i],
            #[trigger] measured[k],
        ) by {
        let k = choose|k: int|
            0 <= k < evaluated.len() && is_evaluated_from(
                sightings@,
                results@,
                i,
                #[trigger] evaluated[k],
            );
        assert(is_measured_from(
            fetch,
            elapsed,
            average,
            queries,
            windows_days,
            sightings@[i],
            results@[i],
            measured[k],
        ));
    }
    assert forall|k: int| 0 <= k < measured.len() implies is_sighting_measured(
        fetch,
        elapsed,
        average,
        queries,
        windows_days,
        sightings@,
        results@,
        #[trigger] measured[k],
    ) by {
        assert(is_evaluated(sightings@, results@, evaluated[k]));
        let i = choose|i: int| is_evaluated_from(sightings@, results@, i, evaluated[k]);
        assert(is_measured_from(
            fetch,
            elapsed,
            average,
            queries,
            windows_days,
            sightings@[i],
            results@[i],
            measured[k],
        ));
    }
    assert forall|k: int, l: int| 0 <= k < l < measured.len() implies (
    #[trigger] measured[k]).instance < (#[trigger] measured[l]).instance by {
        assert(is_measured(elapsed, average, windows_days, evaluated[k], measured[k]));
        assert(is_measured(elapsed, average, windows_days, evaluated[l], measured[l]));
        assert(evaluated[k].instance < evaluated[l].instance);
    }
    assert(are_all_measured(
        fetch,
        elapsed,
        average,
        queries,
        windows_days,
        sightings@,
        results@,
        measured,
    ));
}

/// The sightings are those of the transients with exposures, once each and in their order.
pub open spec fn are_asked(queries: Seq<Vec<usize>>, sightings: Seq<Sighting>) -> bool {
    &&& forall|i: int|
        0 <= i < queries.len() ==> ((#[trigger] queries[i])@.len() > 0 <==> exists|k: int|
            0 <= k < sightings.len() && (#[trigger] sightings[k]).instance == i)
    &&& forall|k: int|
        0 <= k < sightings.len() ==> (#[trigger] sightings[k]).instance < queries.len()
    &&& forall|k: int, l: int|
        0 <= k < l < sightings.len() ==> (#[trigger] sightings[k]).instance < (
        #[trigger] sightings[l]).instance
}

/// A measured transient is one of the sightings with a lightcurve that came back for it.
pub open spec fn is_sighting_measured<
    F: Fn(usize) -> SurveyObservation,
    L: Fn(Double, Double) -> Double,
    C: Fn(&BinSummary) -> StackedValues,
>(
    fetch: &F,
    elapsed: &L,
    average: &C,
    queries: Seq<Vec<usize>>,
    windows_days: Option<Vec<Double>>,
    sightings: Seq<Sighting>,
    results: Seq<Option<LightcurveEvaluation>>,
    measured: Measured,
) -> bool {
    exists|i: int|
        0 <= i < sightings.len() && i < results.len() && is_measured_from(
            fetch,
            elapsed,
            average,
            queries,
            windows_days,
            #[trigger] sightings[i],
            results[i],
            measured,
        )
}

/// The measured transients are those sightings that a lightcurve came back for, once each and in
/// their order.
pub open spec fn are_all_measured<
    F: Fn(usize) -> SurveyObservation,
    L: Fn(Double, Double) -> Double,
    C: Fn(&BinSummary) -> StackedValues,
>(
    fetch: &F,
    elapsed: &L,
    average: &C,
    queries: Seq<Vec<usize>>,
    windows_days: Option<Vec<Double>>,
    sightings: Seq<Sighting>,
    results: Seq<Option<LightcurveEvaluation>>,
    measured: Seq<Measured>,
) -> bool {
    &&& forall|i: int|
        0 <= i < sightings.len() && i < results.len() && #[trigger] results[i] is Some ==> exists|
            k: int,
        |
            0 <= k < measured.len() && is_measured_from(
                fetch,
                elapsed,
                average,
                queries,
                windows_days,
                sightings[i],
                results[i],
                #[trigger] measured[k],
            )
    &&& forall|k: int|
        0 <= k < measured.len() ==> is_sighting_measured(
            fetch,
            elapsed,
            average,
            queries,
            windows_days,
            sightings,
            results,
            #[trigger] measured[k],
        )
    &&& forall|k: int, l: int|
        0 <= k < l < measured.len() ==> (#[trigger] measured[k]).instance < (
        #[trigger] measured[l]).instance
}

} // verus!
