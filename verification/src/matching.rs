//! Which transients are observed, evaluated and detected.
use vstd::prelude::*;

use crate::double::{Double, SIGN_WEIGHT};
use crate::matching_laws::{
    are_all_covered, is_evaluated, is_evaluated_from, law_every_covered_is_matched,
    law_every_lightcurve_is_kept,
};
use crate::selection_laws::{
    is_kept, law_count_is_number_of_places, law_kept_detections, places_set,
};
use crate::survey::{
    copy_observations, observations, LightcurveEvaluation, ObservationView, SurveyObservation,
};

verus! {

/// A transient with the exposures that cover it, by index.
#[derive(Debug)]
pub struct Matched {
    pub instance: usize,
    pub observations: Vec<usize>,
}

/// The indices of the lists that are not empty, ascending.
pub open spec fn covered(queries: Seq<Vec<usize>>) -> Seq<int>
    decreases queries.len(),
{
    if queries.len() == 0 {
        Seq::empty()
    } else if queries.last()@.len() > 0 {
        covered(queries.drop_last()).push(queries.len() - 1)
    } else {
        covered(queries.drop_last())
    }
}

/// `matched` holds the transients that some exposure covers, with their exposures.
pub open spec fn is_matching(queries: Seq<Vec<usize>>, matched: Seq<Matched>) -> bool {
    &&& matched.len() == covered(queries).len()
    &&& forall|k: int|
        0 <= k < matched.len() ==> {
            &&& (#[trigger] matched[k]).instance == covered(queries)[k]
            &&& matched[k].observations@ == queries[covered(queries)[k]]@
        }
}

/// Copies a list of indices.
pub fn copy_indices(list: &Vec<usize>) -> (res: Vec<usize>)
    ensures
        res@ == list@,
{
    let mut res: Vec<usize> = Vec::new();
    for i in 0..list.len()
        invariant
            res@ == list@.take(i as int),
    {
        res.push(list[i]);
        assert(list@.take(i + 1) =~= list@.take(i as int).push(list@[i as int]));
    }
    assert(list@.take(list@.len() as int) =~= list@);
    res
}

/// Keeps the transients that some exposure covers. `queries` lists, for each transient, the
/// exposures found for it.
pub fn match_instances(queries: &Vec<Vec<usize>>) -> (matched: Vec<Matched>)
    ensures
        is_matching(queries@, matched@),
        are_all_covered(queries@, matched@),
{
    let mut matched: Vec<Matched> = Vec::new();
    for i in 0..queries.len()
        invariant
            is_matching(queries@.take(i as int), matched@),
    {
        let ghost before = matched@;
        let ghost seen = queries@.take(i as int);
        assert(queries@.take(i + 1).drop_last() =~= seen);
        if queries[i].len() > 0 {
            matched.push(Matched { instance: i, observations: copy_indices(&queries[i]) });
        }
        proof {
            lemma_covered(seen);
            lemma_covered(queries@.take(i + 1));
            assert forall|k: int| 0 <= k < matched@.len() implies {
                &&& (#[trigger] matched@[k]).instance == covered(queries@.take(i + 1))[k]
                &&& matched@[k].observations@ == queries@.take(i + 1)[covered(
                    queries@.take(i + 1),
                )[k]]@
            } by {
                if k < before.len() {
                    assert(matched@[k] == before[k]);
                    assert(seen[covered(seen)[k]] == queries@.take(i + 1)[covered(seen)[k]]);
                }
            }
        }
    }
    assert(queries@.take(queries@.len() as int) =~= queries@);
    proof {
        law_every_covered_is_matched(queries@, matched@);
    }
    matched
}

/// The covered transients are those with exposures, each once and in their order.
pub proof fn lemma_covered(queries: Seq<Vec<usize>>)
    ensures
        covered(queries).len() <= queries.len(),
        forall|k: int|
            0 <= k < covered(queries).len() ==> 0 <= (#[trigger] covered(queries)[k]) < queries.len()
                && queries[covered(queries)[k]]@.len() > 0,
        forall|k: int, l: int|
            0 <= k < l < covered(queries).len() ==> #[trigger] covered(queries)[k]
                < #[trigger] covered(queries)[l],
        forall|i: int|
            0 <= i < queries.len() && (#[trigger] queries[i])@.len() > 0 ==> covered(
                queries,
            ).contains(i),
    decreases queries.len(),
{
    if queries.len() > 0 {
        let rest = queries.drop_last();
        lemma_covered(rest);
        let before = covered(rest);
        let all = covered(queries);
        assert forall|k: int| 0 <= k < all.len() implies 0 <= (#[trigger] all[k]) < queries.len()
            && queries[all[k]]@.len() > 0 by {
            if k < before.len() {
                assert(all[k] == before[k]);
                assert(rest[before[k]] == queries[before[k]]);
            }
        }
        assert forall|i: int| 0 <= i < queries.len() && (#[trigger] queries[i])@.len() > 0 implies all.contains(
            i,
        ) by {
            if i < rest.len() {
                assert(rest[i]@.len() > 0);
                assert(before.contains(i));
                let k = choose|k: int| 0 <= k < before.len() && before[k] == i;
                assert(all[k] == i);
            } else {
                assert(all[before.len() as int] == i);
            }
        }
    }
}

/// How the lightcurves of a population are evaluated.
#[derive(Clone, Copy, Debug, PartialEq, Eq, Structural)]
pub enum EvaluationPath {
    /// All transients in one call of the model.
    Batch,
    /// One transient after the other.
    Sequential,
    /// Transients in parallel.
    Parallel,
}

/// Chooses how lightcurves are evaluated: in a batch if the model can, else one after the other
/// if it holds the interpreter lock, else in parallel.
pub fn evaluation_path(supports_batch: bool, requires_gil: bool) -> (res: EvaluationPath)
    ensures
        res == if supports_batch {
            EvaluationPath::Batch
        } else if requires_gil {
            EvaluationPath::Sequential
        } else {
            EvaluationPath::Parallel
        },
{
    if supports_batch {
        EvaluationPath::Batch
    } else if requires_gil {
        EvaluationPath::Sequential
    } else {
        EvaluationPath::Parallel
    }
}

/// `list` is exposures that `fetch` can give for the indices.
pub open spec fn is_fetched<F: Fn(usize) -> SurveyObservation>(
    fetch: &F,
    indices: Seq<usize>,
    list: Seq<SurveyObservation>,
) -> bool {
    &&& list.len() == indices.len()
    &&& forall|i: int|
        0 <= i < list.len() ==> call_ensures(*fetch, (indices[i],), #[trigger] list[i])
}

/// Fetches the exposures with the given indices.
pub fn fetch_observations<F: Fn(usize) -> SurveyObservation>(
    indices: &Vec<usize>,
    fetch: &F,
) -> (list: Vec<SurveyObservation>)
    requires
        forall|i: usize| call_requires(*fetch, (i,)),
    ensures
        is_fetched(fetch, indices@, list@),
{
    let mut list: Vec<SurveyObservation> = Vec::new();
    for i in 0..indices.len()
        invariant
            forall|j: usize| call_requires(*fetch, (j,)),
            list@.len() == i,
            forall|j: int|
                0 <= j < i ==> call_ensures(*fetch, (indices@[j],), #[trigger] list@[j]),
    {
        let observation = fetch(indices[i]);
        list.push(observation);
    }
    list
}

/// A transient with the exposures that cover it.
#[derive(Debug)]
pub struct Sighting {
    pub instance: usize,
    pub observations: Vec<SurveyObservation>,
}

/// What a sighting says.
#[verifier::ext_equal]
pub struct SightingView {
    pub instance: usize,
    pub observations: Seq<ObservationView>,
}

impl View for Sighting {
    type V = SightingView;

    open spec fn view(&self) -> SightingView {
        SightingView {
            instance: self.instance,
            observations: observations(self.observations@),
        }
    }
}

/// `sightings` are the matched transients with exposures that `fetch` can give.
pub open spec fn are_sightings<F: Fn(usize) -> SurveyObservation>(
    fetch: &F,
    matched: Seq<Matched>,
    sightings: Seq<Sighting>,
) -> bool {
    &&& sightings.len() == matched.len()
    &&& forall|k: int|
        0 <= k < sightings.len() ==> {
            &&& (#[trigger] sightings[k]).instance == matched[k].instance
            &&& is_fetched(fetch, matched[k].observations@, sightings[k].observations@)
        }
}

/// Fetches the exposures of matched transients.
pub fn fetch_sightings<F: Fn(usize) -> SurveyObservation>(
    matched: &Vec<Matched>,
    fetch: &F,
) -> (sightings: Vec<Sighting>)
    requires
        forall|i: usize| call_requires(*fetch, (i,)),
    ensures
        are_sightings(fetch, matched@, sightings@),
{
    let mut sightings: Vec<Sighting> = Vec::new();
    for k in 0..matched.len()
        invariant
            forall|i: usize| call_requires(*fetch, (i,)),
            sightings@.len() == k,
            forall|j: int|
                0 <= j < k ==> {
                    &&& (#[trigger] sightings@[j]).instance == matched@[j].instance
                    &&& is_fetched(fetch, matched@[j].observations@, sightings@[j].observations@)
                },
    {
        let observations = fetch_observations(&matched[k].observations, fetch);
        sightings.push(Sighting { instance: matched[k].instance, observations });
    }
    sightings
}

/// A transient with its exposures and its evaluated lightcurve.
#[derive(Debug)]
pub struct Evaluated {
    pub instance: usize,
    pub observations: Vec<SurveyObservation>,
    pub eval: LightcurveEvaluation,
}

/// The places below `n` at which a result is there, ascending.
pub open spec fn successes(results: Seq<Option<LightcurveEvaluation>>, n: int) -> Seq<int>
    decreases n,
{
    if n <= 0 {
        Seq::empty()
    } else if results[n - 1] is Some {
        successes(results, n - 1).push(n - 1)
    } else {
        successes(results, n - 1)
    }
}

/// The number of transients that have a result at all.
pub open spec fn paired(sightings: nat, results: nat) -> int {
    if sightings < results {
        sightings as int
    } else {
        results as int
    }
}

/// `evaluated` pairs transients with the results of the model, without those that failed.
pub open spec fn is_evaluation(
    sightings: Seq<Sighting>,
    results: Seq<Option<LightcurveEvaluation>>,
    evaluated: Seq<Evaluated>,
    n: int,
) -> bool {
    &&& evaluated.len() == successes(results, n).len()
    &&& forall|k: int|
        0 <= k < evaluated.len() ==> {
            let at = successes(results, n)[k];
            &&& (#[trigger] evaluated[k]).instance == sightings[at].instance
            &&& evaluated[k].observations@ == sightings[at].observations@
            &&& evaluated[k].eval == results[at]->0
        }
}

/// The places with results are below `n` and ascend, and the results are there.
pub proof fn lemma_successes(results: Seq<Option<LightcurveEvaluation>>, n: int)
    ensures
        forall|k: int|
            0 <= k < successes(results, n).len() ==> 0 <= #[trigger] successes(results, n)[k] < n
                && results[successes(results, n)[k]] is Some,
        forall|k: int, l: int|
            0 <= k < l < successes(results, n).len() ==> #[trigger] successes(results, n)[k]
                < #[trigger] successes(results, n)[l],
    decreases n,
{
    if n > 0 {
        lemma_successes(results, n - 1);
        let before = successes(results, n - 1);
        let all = successes(results, n);
        assert forall|k: int| 0 <= k < all.len() implies 0 <= #[trigger] all[k] < n
            && results[all[k]] is Some by {
            if k < before.len() {
                assert(all[k] == before[k]);
            }
        }
        assert forall|k: int, l: int| 0 <= k < l < all.len() implies #[trigger] all[k]
            < #[trigger] all[l] by {
            assert(all[k] == before[k]);
            if l < before.len() {
                assert(all[l] == before[l]);
            }
        }
    }
}

/// Evaluated transients are in the order in which they were generated, each once.
pub open spec fn instances_ascend(evaluated: Seq<Evaluated>) -> bool {
    forall|k: int, l: int|
        0 <= k < l < evaluated.len() ==> (#[trigger] evaluated[k]).instance < (
        #[trigger] evaluated[l]).instance
}

/// What is evaluated is covered by exposures, which are those found for the transient, and no
/// transient occurs twice.
pub proof fn law_evaluated_once<F: Fn(usize) -> SurveyObservation>(
    fetch: &F,
    queries: Seq<Vec<usize>>,
    matched: Seq<Matched>,
    sightings: Seq<Sighting>,
    results: Seq<Option<LightcurveEvaluation>>,
    evaluated: Seq<Evaluated>,
)
    requires
        is_matching(queries, matched),
        are_sightings(fetch, matched, sightings),
        is_evaluation(sightings, results, evaluated, paired(sightings.len(), results.len())),
    ensures
        instances_ascend(evaluated),
        forall|k: int|
            0 <= k < evaluated.len() ==> {
                &&& (#[trigger] evaluated[k]).instance < queries.len()
                &&& is_fetched(
                    fetch,
                    queries[evaluated[k].instance as int]@,
                    evaluated[k].observations@,
                )
                &&& evaluated[k].observations@.len() > 0
            },
{
    let n = paired(sightings.len(), results.len());
    lemma_covered(queries);
    lemma_successes(results, n);
    let at = successes(results, n);
    assert forall|k: int| 0 <= k < evaluated.len() implies {
        &&& (#[trigger] evaluated[k]).instance < queries.len()
        &&& is_fetched(fetch, queries[evaluated[k].instance as int]@, evaluated[k].observations@)
        &&& evaluated[k].observations@.len() > 0
    } by {
        assert(sightings[at[k]].instance == matched[at[k]].instance);
        assert(matched[at[k]].instance == covered(queries)[at[k]]);
    }
    assert forall|k: int, l: int| 0 <= k < l < evaluated.len() implies (
    #[trigger] evaluated[k]).instance < (#[trigger] evaluated[l]).instance by {
        assert(at[k] < at[l]);
        assert(sightings[at[k]].instance == matched[at[k]].instance);
        assert(sightings[at[l]].instance == matched[at[l]].instance);
        assert(matched[at[k]].instance == covered(queries)[at[k]]);
        assert(matched[at[l]].instance == covered(queries)[at[l]]);
    }
}

/// Pairs transients with the results of the model and drops those that failed, and those beyond
/// the results that came back.
pub fn keep_evaluated(
    sightings: &Vec<Sighting>,
    results: Vec<Option<LightcurveEvaluation>>,
) -> (evaluated: Vec<Evaluated>)
    ensures
        is_evaluation(sightings@, results@, evaluated@, paired(sightings@.len(), results@.len())),
        forall|i: int|
            0 <= i < sightings@.len() && i < results@.len() && #[trigger] results@[i] is Some
                ==> exists|k: int|
                0 <= k < evaluated@.len() && is_evaluated_from(
                    sightings@,
                    results@,
                    i,
                    #[trigger] evaluated@[k],
                ),
        forall|k: int|
            0 <= k < evaluated@.len() ==> is_evaluated(sightings@, results@, #[trigger] evaluated@[k]),
{
    let ghost given = results@;
    let mut left = results;
    let mut evaluated: Vec<Evaluated> = Vec::new();
    let count: usize = if sightings.len() < left.len() {
        sightings.len()
    } else {
        left.len()
    };
    for i in 0..count
        invariant
            count <= sightings@.len(),
            count <= given.len(),
            left@.len() == given.len(),
            forall|j: int| i <= j < given.len() ==> left@[j] == given[j],
            is_evaluation(sightings@, given, evaluated@, i as int),
    {
        let ghost before = evaluated@;
        if let Some(eval) = left[i].take() {
            evaluated.push(
                Evaluated {
                    instance: sightings[i].instance,
                    observations: copy_observations(&sightings[i].observations),
                    eval,
                },
            );
        }
        assert forall|k: int| 0 <= k < evaluated@.len() implies {
            let at = successes(given, i + 1)[k];
            &&& (#[trigger] evaluated@[k]).instance == sightings@[at].instance
            &&& evaluated@[k].observations@ == sightings@[at].observations@
            &&& evaluated@[k].eval == given[at]->0
        } by {
            if k < before.len() {
                assert(evaluated@[k] == before[k]);
            }
        }
    }
    proof {
        law_every_lightcurve_is_kept(sightings@, given, evaluated@);
    }
    evaluated
}

/// Cuts on the sources that a survey detects.
#[derive(Clone, Copy, Debug)]
pub struct SelectionCuts {
    /// Least distance from the galactic plane; no cut unless it is positive.
    pub min_galactic_lat: Double,
    /// Steepness of the spectroscopic completeness; no cut unless it is positive.
    pub completeness_k: Double,
}

/// What a detection is judged by: whether the exposures show the transient, where it lies, and
/// the number that is held against the chance of a spectrum at its peak magnitude, if it has one.
#[derive(Clone, Copy, Debug)]
pub struct Verdict {
    pub detected: bool,
    pub galactic_lat: Double,
    pub hash: Double,
    pub completeness: Option<Double>,
}

/// A detection too close to the galactic plane.
pub open spec fn is_in_plane(cuts: SelectionCuts, verdict: Verdict) -> bool {
    (Double { bits: 0 }).below(cuts.min_galactic_lat) && verdict.galactic_lat.unsigned().below(
        cuts.min_galactic_lat,
    )
}

/// A detection without a spectrum.
pub open spec fn lacks_spectrum(cuts: SelectionCuts, verdict: Verdict) -> bool {
    (Double { bits: 0 }).below(cuts.completeness_k) && (verdict.completeness matches Some(p)
        && p.below(verdict.hash))
}

/// A detection that no cut removes.
pub open spec fn is_selected(cuts: SelectionCuts, verdict: Verdict) -> bool {
    verdict.detected && !is_in_plane(cuts, verdict) && !lacks_spectrum(cuts, verdict)
}

/// Applies the cuts to a detection.
pub fn apply_cuts(cuts: &SelectionCuts, verdict: &Verdict) -> (res: bool)
    ensures
        res == is_selected(*cuts, *verdict),
        res == is_kept(*cuts, *verdict),
{
    proof {
        law_kept_detections(*cuts, *verdict);
    }
    let zero = Double { bits: 0 };
    let mut detected: bool = verdict.detected;
    if zero.lt(&cuts.min_galactic_lat) && detected {
        if verdict.galactic_lat.abs().lt(&cuts.min_galactic_lat) {
            detected = false;
        }
    }
    if zero.lt(&cuts.completeness_k) && detected {
        if let Some(p) = verdict.completeness {
            if p.lt(&verdict.hash) {
                detected = false;
            }
        }
    }
    detected
}

/// Whether each detection is selected.
pub open spec fn selected(cuts: SelectionCuts, verdicts: Seq<Verdict>) -> Seq<bool> {
    Seq::new(verdicts.len(), |k: int| is_selected(cuts, verdicts[k]))
}

/// Applies the cuts to all detections.
pub fn judge(cuts: &SelectionCuts, verdicts: &Vec<Verdict>) -> (res: Vec<bool>)
    ensures
        res@ == selected(*cuts, verdicts@),
{
    let mut res: Vec<bool> = Vec::new();
    for k in 0..verdicts.len()
        invariant
            res@.len() == k,
            forall|j: int| 0 <= j < k ==> #[trigger] res@[j] == is_selected(*cuts, verdicts@[j]),
    {
        res.push(apply_cuts(cuts, &verdicts[k]));
    }
    assert(res@ =~= selected(*cuts, verdicts@));
    res
}

/// Cuts remove detections and make none; without a positive limit they remove nothing.
pub proof fn law_cuts_only_remove(cuts: SelectionCuts, verdict: Verdict)
    ensures
        is_selected(cuts, verdict) ==> verdict.detected,
        !(Double { bits: 0 }).below(cuts.min_galactic_lat) && !(Double { bits: 0 }).below(
            cuts.completeness_k,
        ) ==> is_selected(cuts, verdict) == verdict.detected,
{
}

/// How many flags are set.
pub open spec fn count_set(flags: Seq<bool>) -> nat
    decreases flags.len(),
{
    if flags.len() == 0 {
        0
    } else {
        count_set(flags.drop_last()) + if flags.last() {
            1nat
        } else {
            0nat
        }
    }
}

/// No more flags are set than there are.
pub proof fn lemma_count_set(flags: Seq<bool>)
    ensures
        count_set(flags) <= flags.len(),
    decreases flags.len(),
{
    if flags.len() > 0 {
        lemma_count_set(flags.drop_last());
    }
}

/// Counts the flags that are set.
pub fn count_detected(flags: &Vec<bool>) -> (res: usize)
    ensures
        res == count_set(flags@),
        res == places_set(flags@).len(),
{
    proof {
        law_count_is_number_of_places(flags@);
    }
    let mut res: usize = 0;
    for k in 0..flags.len()
        invariant
            res == count_set(flags@.take(k as int)),
            res <= k,
    {
        assert(flags@.take(k + 1).drop_last() =~= flags@.take(k as int));
        if flags[k] {
            res = res + 1;
        }
    }
    assert(flags@.take(flags@.len() as int) =~= flags@);
    res
}

/// The flag that belongs to transient `i`: the last one given for it, and none set if none is
/// given.
pub open spec fn flag_of(places: Seq<usize>, flags: Seq<bool>, i: int) -> bool
    decreases places.len(),
{
    if places.len() == 0 {
        false
    } else if places.last() == i {
        flags.last()
    } else {
        flag_of(places.drop_last(), flags.drop_last(), i)
    }
}

/// The flag of each of `count` transients.
pub open spec fn flags_of(count: nat, places: Seq<usize>, flags: Seq<bool>) -> Seq<bool> {
    Seq::new(count, |i: int| flag_of(places, flags, i))
}

/// For each of `count` generated transients, whether it was detected: transients that no exposure
/// covers and transients without a lightcurve were not. `places` says which transient each flag
/// belongs to.
pub fn detection_flags(count: usize, places: &Vec<usize>, flags: &Vec<bool>) -> (res: Vec<bool>)
    requires
        places@.len() == flags@.len(),
    ensures
        res@ == flags_of(count as nat, places@, flags@),
{
    let mut res: Vec<bool> = Vec::new();
    for i in 0..count
        invariant
            res@.len() == i,
            forall|j: int| 0 <= j < i ==> !(#[trigger] res@[j]),
    {
        res.push(false);
    }
    for k in 0..places.len()
        invariant
            places@.len() == flags@.len(),
            res@.len() == count,
            forall|i: int|
                0 <= i < count ==> #[trigger] res@[i] == flag_of(
                    places@.take(k as int),
                    flags@.take(k as int),
                    i,
                ),
    {
        assert(places@.take(k + 1).drop_last() =~= places@.take(k as int));
        assert(flags@.take(k + 1).drop_last() =~= flags@.take(k as int));
        if places[k] < count {
            res.set(places[k], flags[k]);
        }
    }
    assert(places@.take(places@.len() as int) =~= places@);
    assert(flags@.take(flags@.len() as int) =~= flags@);
    assert(res@ =~= flags_of(count as nat, places@, flags@));
    res
}

/// Where no transient is given twice, each has its own flag.
pub proof fn law_flags_of_distinct(places: Seq<usize>, flags: Seq<bool>, k: int)
    requires
        places.len() == flags.len(),
        places.no_duplicates(),
        0 <= k < places.len(),
    ensures
        flag_of(places, flags, places[k] as int) == flags[k],
    decreases places.len(),
{
    if k < places.len() - 1 {
        law_flags_of_distinct(places.drop_last(), flags.drop_last(), k);
    }
}

/// A transient that is not given was not detected.
pub proof fn law_absent_not_detected(places: Seq<usize>, flags: Seq<bool>, i: int)
    requires
        places.len() == flags.len(),
        forall|k: int| 0 <= k < places.len() ==> #[trigger] places[k] != i,
    ensures
        !flag_of(places, flags, i),
    decreases places.len(),
{
    if places.len() > 0 {
        law_absent_not_detected(places.drop_last(), flags.drop_last(), i);
    }
}

/// Setting one more flag adds one to their number.
proof fn lemma_count_update(flags: Seq<bool>, i: int, flag: bool)
    requires
        0 <= i < flags.len(),
        !flags[i],
    ensures
        count_set(flags.update(i, flag)) == count_set(flags) + if flag {
            1nat
        } else {
            0nat
        },
    decreases flags.len(),
{
    let changed = flags.update(i, flag);
    if i == flags.len() - 1 {
        assert(changed.drop_last() =~= flags.drop_last());
    } else {
        assert(changed.drop_last() =~= flags.drop_last().update(i, flag));
        lemma_count_update(flags.drop_last(), i, flag);
    }
}

/// Flags that are not set count nothing.
proof fn lemma_count_none(flags: Seq<bool>)
    requires
        forall|i: int| 0 <= i < flags.len() ==> !(#[trigger] flags[i]),
    ensures
        count_set(flags) == 0,
    decreases flags.len(),
{
    if flags.len() > 0 {
        lemma_count_none(flags.drop_last());
    }
}

/// Where no transient is given twice, the transients whose flag is set are as many as the flags
/// that are set: every detection is recorded once.
pub proof fn law_flags_count(count: nat, places: Seq<usize>, flags: Seq<bool>)
    requires
        places.len() == flags.len(),
        places.no_duplicates(),
        forall|k: int| 0 <= k < places.len() ==> #[trigger] places[k] < count,
    ensures
        count_set(flags_of(count, places, flags)) == count_set(flags),
    decreases places.len(),
{
    if places.len() == 0 {
        lemma_count_none(flags_of(count, places, flags));
    } else {
        let at = places.last() as int;
        let rest = flags_of(count, places.drop_last(), flags.drop_last());
        law_flags_count(count, places.drop_last(), flags.drop_last());
        law_absent_not_detected(places.drop_last(), flags.drop_last(), at);
        assert(flags_of(count, places, flags) =~= rest.update(at, flags.last()));
        lemma_count_update(rest, at, flags.last());
    }
}

/// `top` is the largest of zero and the given numbers, without a minus sign; NaN among them does
/// not count.
pub open spec fn is_maximum(values: Seq<Double>, top: Double) -> bool {
    &&& !top.nan()
    &&& top.bits < SIGN_WEIGHT
    &&& forall|i: int|
        0 <= i < values.len() && !(#[trigger] values[i]).nan() ==> values[i].rank() <= top.rank()
    &&& top == (Double { bits: 0 }) || exists|i: int|
        0 <= i < values.len() && #[trigger] values[i] == top
}

/// The largest of zero and the given numbers.
pub fn max_redshift(values: &Vec<Double>) -> (top: Double)
    ensures
        is_maximum(values@, top),
{
    let mut top = Double { bits: 0 };
    for i in 0..values.len()
        invariant
            !top.nan(),
            top.bits < SIGN_WEIGHT,
            forall|j: int|
                0 <= j < i && !(#[trigger] values@[j]).nan() ==> values@[j].rank() <= top.rank(),
            top == (Double { bits: 0 }) || exists|j: int|
                0 <= j < values@.len() && #[trigger] values@[j] == top,
    {
        if top.lt(&values[i]) {
            top = values[i];
            assert(values@[i as int] == top);
        }
    }
    top
}

} // verus!
