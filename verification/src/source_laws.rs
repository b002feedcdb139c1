//! What a reported source says about the transient that it comes from.
use vstd::prelude::*;

use crate::double::Double;
use crate::matching::{count_set, flags_of, is_maximum, lemma_count_set};
use crate::photometry::{can_be_built, is_photometry, seed_of, PhotometryView, Trial};
use crate::photometry_laws::law_no_point_before_explosion;
use crate::pipeline::{
    are_photometry, are_rates, are_sources, at_least_one, is_extended, is_photometry_of,
    is_recorded, is_reported, source_of, sources_of, PipelineResult, PopulationRun, Rates,
};
use crate::selection_laws::{
    law_count_is_number_of_places, law_every_transient_has_a_verdict, places_set,
};
use crate::sources::{
    source_views, PopulationInput, PyDetectedSource, SourceView, TransientInstance,
};
use crate::survey::{observations, LightcurveEvaluation, SurveyObservation};

verus! {

/// A source tells the truth about a transient of the given type.
pub open spec fn is_truth(
    transient_type: Seq<char>,
    instance: TransientInstance,
    source: SourceView,
) -> bool {
    &&& source.transient_type == transient_type
    &&& source.z == instance.z
    &&& source.t_exp == instance.t_exp
    &&& source.peak_abs_mag == instance.peak_abs_mag
    &&& source.true_params.len() == instance.model_params@.len()
    &&& forall|i: int|
        0 <= i < source.true_params.len() ==> (#[trigger] source.true_params[i]).0
            == instance.model_params@[i].name@ && source.true_params[i].1
            == instance.model_params@[i].value
}

/// The photometry of a source.
pub open spec fn photometry_in(source: SourceView) -> PhotometryView {
    PhotometryView { points: source.photometry, limits: source.non_detections }
}

/// A source comes from measured transient `k`: it tells the truth about it, and its photometry was
/// built from the exposures and the lightcurve of that transient, with the explosion time and the
/// redshift that the source names; measurements below the threshold are kept if it was not
/// detected.
pub open spec fn is_source_from<
    K: Fn(Double, Double) -> (u64, u64),
    M: Fn(Double, Double) -> (Double, Double),
    P: Fn(Double, Double, u64, u64) -> Double,
>(
    seeds: &K,
    measure: &M,
    perturb: &P,
    run: PopulationRun,
    k: int,
    source: SourceView,
) -> bool {
    &&& is_truth(
        run.input.transient_type@,
        run.input.instances@[run.measured@[k].instance as int],
        source,
    )
    &&& can_be_built(
        seeds,
        measure,
        perturb,
        &run.measured@[k].series.evaluation,
        run.measured@[k].series.observations@,
        source.t_exp,
        source.z,
        !run.detected@[k],
        photometry_in(source),
    )
    &&& forall|i: int|
        0 <= i < source.photometry.len() ==> !(#[trigger] source.photometry[i]).mjd.below(
            source.t_exp,
        )
}

/// Photometry without points can be built, and without upper limits if measurements below the
/// threshold are kept.
pub open spec fn can_be_empty<
    K: Fn(Double, Double) -> (u64, u64),
    M: Fn(Double, Double) -> (Double, Double),
    P: Fn(Double, Double, u64, u64) -> Double,
>(
    seeds: &K,
    measure: &M,
    perturb: &P,
    eval: &LightcurveEvaluation,
    obs: Seq<SurveyObservation>,
    t_exp: Double,
    z: Double,
    keep: bool,
) -> bool {
    exists|nothing: PhotometryView|
        nothing.points.len() == 0 && (keep ==> nothing.limits.len() == 0) && #[trigger] can_be_built(
            seeds,
            measure,
            perturb,
            eval,
            obs,
            t_exp,
            z,
            keep,
            nothing,
        )
}

/// There can be nothing to report of measured transient `k`: no point, and if it was not detected,
/// no upper limit either.
pub open spec fn can_be_silent<
    K: Fn(Double, Double) -> (u64, u64),
    M: Fn(Double, Double) -> (Double, Double),
    P: Fn(Double, Double, u64, u64) -> Double,
>(seeds: &K, measure: &M, perturb: &P, run: PopulationRun, k: int) -> bool {
    can_be_empty(
        seeds,
        measure,
        perturb,
        &run.measured@[k].series.evaluation,
        run.measured@[k].series.observations@,
        run.input.instances@[run.measured@[k].instance as int].t_exp,
        run.input.instances@[run.measured@[k].instance as int].z,
        !run.detected@[k],
    )
}

/// The sources come from the measured transients at the given places, which ascend, have the
/// verdict, and leave out none that there is something to report of.
pub open spec fn are_origins<
    K: Fn(Double, Double) -> (u64, u64),
    M: Fn(Double, Double) -> (Double, Double),
    P: Fn(Double, Double, u64, u64) -> Double,
>(
    seeds: &K,
    measure: &M,
    perturb: &P,
    run: PopulationRun,
    detected: bool,
    n: int,
    added: Seq<SourceView>,
    origins: Seq<int>,
) -> bool {
    &&& added.len() == origins.len()
    &&& forall|j: int|
        0 <= j < origins.len() ==> {
            &&& 0 <= (#[trigger] origins[j]) < n
            &&& run.detected@[origins[j]] == detected
            &&& is_source_from(seeds, measure, perturb, run, origins[j], added[j])
        }
    &&& forall|i: int, j: int|
        0 <= i < j < origins.len() ==> (#[trigger] origins[i]) < (#[trigger] origins[j])
    &&& forall|k: int|
        0 <= k < n && #[trigger] run.detected@[k] == detected && !origins.contains(k)
            ==> can_be_silent(seeds, measure, perturb, run, k)
}

proof fn lemma_no_early_point<
    K: Fn(Double, Double) -> (u64, u64),
    M: Fn(Double, Double) -> (Double, Double),
    P: Fn(Double, Double, u64, u64) -> Double,
>(
    seeds: &K,
    measure: &M,
    perturb: &P,
    eval: &LightcurveEvaluation,
    obs: Seq<SurveyObservation>,
    t_exp: Double,
    z: Double,
    keep: bool,
    result: PhotometryView,
)
    requires
        can_be_built(seeds, measure, perturb, eval, obs, t_exp, z, keep, result),
    ensures
        forall|i: int|
            0 <= i < result.points.len() ==> !(#[trigger] result.points[i]).mjd.below(t_exp),
{
    let (pair, trials) = choose|pair: (u64, u64), trials: Seq<Trial>| #[trigger]
        call_ensures(*seeds, (t_exp, z), pair) && #[trigger] is_photometry(
            measure,
            perturb,
            eval,
            obs,
            t_exp,
            seed_of(pair),
            keep,
            trials,
            result,
        );
    let list = observations(obs);
    law_no_point_before_explosion(
        eval.apparent_mags@,
        list,
        t_exp,
        trials,
        keep,
        list.len() as int,
    );
}

proof fn lemma_origins<
    K: Fn(Double, Double) -> (u64, u64),
    M: Fn(Double, Double) -> (Double, Double),
    P: Fn(Double, Double, u64, u64) -> Double,
>(
    seeds: &K,
    measure: &M,
    perturb: &P,
    run: PopulationRun,
    detected: bool,
    photometry: Seq<PhotometryView>,
    n: int,
) -> (origins: Seq<int>)
    requires
        0 <= n <= photometry.len(),
        photometry.len() == run.measured@.len(),
        are_photometry(seeds, measure, perturb, run, detected, photometry),
    ensures
        are_origins(
            seeds,
            measure,
            perturb,
            run,
            detected,
            n,
            sources_of(run, detected, photometry, n),
            origins,
        ),
    decreases n,
{
    if n == 0 {
        Seq::empty()
    } else {
        let k = n - 1;
        let before = lemma_origins(seeds, measure, perturb, run, detected, photometry, k);
        let past = sources_of(run, detected, photometry, k);
        let added = sources_of(run, detected, photometry, n);
        let reported = run.detected@[k] == detected && is_reported(detected, photometry[k]);
        let origins = if reported {
            before.push(k)
        } else {
            before
        };
        if run.detected@[k] == detected {
            assert(is_photometry_of(seeds, measure, perturb, run, k, photometry[k]));
            let instance = run.input.instances@[run.measured@[k].instance as int];
            lemma_no_early_point(
                seeds,
                measure,
                perturb,
                &run.measured@[k].series.evaluation,
                run.measured@[k].series.observations@,
                instance.t_exp,
                instance.z,
                !run.detected@[k],
                photometry[k],
            );
            let source = source_of(run, k, photometry[k]);
            assert(photometry_in(source) == photometry[k]);
            assert(is_source_from(seeds, measure, perturb, run, k, source));
            if !reported {
                assert(can_be_silent(seeds, measure, perturb, run, k));
            }
        }
        assert forall|j: int| 0 <= j < origins.len() implies {
            &&& 0 <= (#[trigger] origins[j]) < n
            &&& run.detected@[origins[j]] == detected
            &&& is_source_from(seeds, measure, perturb, run, origins[j], added[j])
        } by {
            if j < before.len() {
                assert(origins[j] == before[j]);
                assert(added[j] == past[j]);
            }
        }
        assert forall|q: int|
            0 <= q < n && #[trigger] run.detected@[q] == detected && !origins.contains(q) implies can_be_silent(
            seeds,
            measure,
            perturb,
            run,
            q,
        ) by {
            if q < k {
                if before.contains(q) {
                    let j = choose|j: int| 0 <= j < before.len() && before[j] == q;
                    assert(origins[j] == q);
                }
            } else if reported {
                assert(origins[before.len() as int] == q);
            }
        }
        origins
    }
}

/// Sources come from different transients with the verdict, in the order in which those were
/// generated; each tells the truth about its own transient, field by field, and its photometry was
/// built for the explosion time and the redshift that it names; and no transient with the verdict is
/// left out that there is something to report of.
pub proof fn law_sources_tell_the_truth<
    K: Fn(Double, Double) -> (u64, u64),
    M: Fn(Double, Double) -> (Double, Double),
    P: Fn(Double, Double, u64, u64) -> Double,
>(
    seeds: &K,
    measure: &M,
    perturb: &P,
    run: PopulationRun,
    detected: bool,
    added: Seq<SourceView>,
)
    requires
        are_sources(seeds, measure, perturb, run, detected, added),
    ensures
        exists|origins: Seq<int>|
            are_origins(
                seeds,
                measure,
                perturb,
                run,
                detected,
                run.measured@.len() as int,
                added,
                origins,
            ),
{
    let photometry = choose|photometry: Seq<PhotometryView>|
        photometry.len() == run.measured@.len() && #[trigger] are_photometry(
            seeds,
            measure,
            perturb,
            run,
            detected,
            photometry,
        ) && added == sources_of(run, detected, photometry, photometry.len() as int);
    let origins = lemma_origins(
        seeds,
        measure,
        perturb,
        run,
        detected,
        photometry,
        photometry.len() as int,
    );
    assert(are_origins(
        seeds,
        measure,
        perturb,
        run,
        detected,
        run.measured@.len() as int,
        added,
        origins,
    ));
}

/// Entering a population leaves all that was there as it was, and adds its counts, one summary with
/// its name, its rates and its largest redshift, and its sources: those of detected transients, and
/// those of the others exactly if they are asked for.
pub proof fn law_population_is_added<
    K: Fn(Double, Double) -> (u64, u64),
    M: Fn(Double, Double) -> (Double, Double),
    P: Fn(Double, Double, u64, u64) -> Double,
>(
    seeds: &K,
    measure: &M,
    perturb: &P,
    run: PopulationRun,
    rates: Rates,
    include_undetected: bool,
    before: PipelineResult,
    after: PipelineResult,
)
    requires
        before.wf(),
        is_recorded(seeds, measure, perturb, run, rates, include_undetected, before, after),
    ensures
        after.n_simulated - before.n_simulated == run.n_transients,
        after.n_detected - before.n_detected == places_set(run.detected@).len(),
        after.n_undetected - before.n_undetected == after.undetected_sources@.len()
            - before.undetected_sources@.len(),
        after.rate_summaries@.len() == before.rate_summaries@.len() + 1,
        after.per_type_extras@.len() == before.per_type_extras@.len() + 1,
        forall|i: int|
            0 <= i < before.rate_summaries@.len() ==> #[trigger] after.rate_summaries@[i]
                == before.rate_summaries@[i],
        forall|i: int|
            0 <= i < before.per_type_extras@.len() ==> #[trigger] after.per_type_extras@[i]
                == before.per_type_extras@[i],
        ({
            let summary = after.rate_summaries@[before.rate_summaries@.len() as int];
            let extras = after.per_type_extras@[before.per_type_extras@.len() as int];
            &&& summary.transient_type@ == run.input.transient_type@
            &&& summary.volumetric_rate == run.input.volumetric_rate
            &&& summary.detections_per_year == rates.detections_per_year
            &&& summary.detections_total == rates.detections_total
            &&& summary.overall_efficiency == rates.overall_efficiency
            &&& summary.survey_omega_sr == rates.survey_omega_sr
            &&& extras.effective_vt_gpc3_yr == rates.effective_vt_gpc3_yr
            &&& extras.n_simulated == run.n_transients
            &&& places_set(run.detected@).len() <= usize::MAX ==> extras.n_detected == places_set(
                run.detected@,
            ).len()
            &&& forall|i: int|
                0 <= i < run.input.instances@.len() && !(#[trigger] run.input.instances@[i]).z.nan()
                    ==> run.input.instances@[i].z.at_most(summary.z_max)
            &&& summary.z_max.bits == 0 || exists|i: int|
                0 <= i < run.input.instances@.len() && (#[trigger] run.input.instances@[i]).z
                    == summary.z_max
        }),
        are_added(
            seeds,
            measure,
            perturb,
            run,
            true,
            source_views(before.detected_sources@),
            source_views(after.detected_sources@),
        ),
        include_undetected ==> are_added(
            seeds,
            measure,
            perturb,
            run,
            false,
            source_views(before.undetected_sources@),
            source_views(after.undetected_sources@),
        ),
        !include_undetected ==> after.undetected_sources@ == before.undetected_sources@,
{
    law_count_is_number_of_places(run.detected@);
    assert forall|i: int| 0 <= i < before.rate_summaries@.len() implies
        #[trigger] after.rate_summaries@[i] == before.rate_summaries@[i] by {
        assert(after.rate_summaries@.drop_last()[i] == before.rate_summaries@[i]);
    }
    let summary = after.rate_summaries@.last();
    let zs = run.redshifts();
    assert forall|i: int|
        0 <= i < run.input.instances@.len() && !(#[trigger] run.input.instances@[i]).z.nan() implies run.input.instances@[i].z.at_most(
        summary.z_max,
    ) by {
        assert(zs[i] == run.input.instances@[i].z);
    }
    if summary.z_max.bits != 0 {
        let i = choose|i: int| 0 <= i < zs.len() && #[trigger] zs[i] == summary.z_max;
        assert(run.input.instances@[i].z == summary.z_max);
    }
    lemma_added(
        seeds,
        measure,
        perturb,
        run,
        true,
        before.detected_sources@,
        after.detected_sources@,
    );
    if include_undetected {
        lemma_added(
            seeds,
            measure,
            perturb,
            run,
            false,
            before.undetected_sources@,
            after.undetected_sources@,
        );
    }
}

/// The sources that were there stay in front, and those that follow come from the measured
/// transients with the verdict.
pub open spec fn are_added<
    K: Fn(Double, Double) -> (u64, u64),
    M: Fn(Double, Double) -> (Double, Double),
    P: Fn(Double, Double, u64, u64) -> Double,
>(
    seeds: &K,
    measure: &M,
    perturb: &P,
    run: PopulationRun,
    detected: bool,
    before: Seq<SourceView>,
    after: Seq<SourceView>,
) -> bool {
    &&& before.len() <= after.len()
    &&& forall|i: int| 0 <= i < before.len() ==> #[trigger] after[i] == before[i]
    &&& exists|origins: Seq<int>|
        are_origins(
            seeds,
            measure,
            perturb,
            run,
            detected,
            run.measured@.len() as int,
            after.skip(before.len() as int),
            origins,
        )
}

proof fn lemma_added<
    K: Fn(Double, Double) -> (u64, u64),
    M: Fn(Double, Double) -> (Double, Double),
    P: Fn(Double, Double, u64, u64) -> Double,
>(
    seeds: &K,
    measure: &M,
    perturb: &P,
    run: PopulationRun,
    detected: bool,
    before: Seq<PyDetectedSource>,
    after: Seq<PyDetectedSource>,
)
    requires
        is_extended(seeds, measure, perturb, run, detected, before, after),
    ensures
        are_added(
            seeds,
            measure,
            perturb,
            run,
            detected,
            source_views(before),
            source_views(after),
        ),
{
    let added = choose|added: Seq<SourceView>| #[trigger]
        are_sources(seeds, measure, perturb, run, detected, added) && source_views(after)
            == source_views(before) + added;
    law_sources_tell_the_truth(seeds, measure, perturb, run, detected, added);
    assert(source_views(after).skip(source_views(before).len() as int) =~= added);
}

/// The rates of a population are integrated from the verdict on every generated transient, where
/// those that were not measured count as not detected, from the number of detections, from the
/// transients asked for, or one if none were, and from the largest redshift.
pub proof fn law_rates_use_every_verdict<
    R: Fn(&PopulationInput, usize, &Vec<bool>, usize, Double) -> Rates,
>(integrate: &R, run: PopulationRun, rates: Rates)
    requires
        run.wf(),
        are_rates(integrate, run, rates),
    ensures
        exists|asked: usize, flags: Vec<bool>, n: usize, z_max: Double|
            are_rate_inputs(run, asked, flags@, n, z_max) && #[trigger] call_ensures(
                *integrate,
                (run.input, asked, &flags, n, z_max),
                rates,
            ),
{
    let (flags, z_max) = choose|flags: Vec<bool>, z_max: Double|
        flags@ == flags_of(
            run.input.instances@.len(),
            run.places(),
            run.detected@,
        ) && is_maximum(run.redshifts(), z_max) && #[trigger] call_ensures(
            *integrate,
            (run.input, at_least_one(run.n_transients), &flags, count_set(run.detected@) as usize, z_max),
            rates,
        );
    let count = run.input.instances@.len();
    law_every_transient_has_a_verdict(count, run.places(), run.detected@);
    law_count_is_number_of_places(run.detected@);
    lemma_count_set(run.detected@);
    assert(run.input.instances.len() == count);
    assert(run.detected.len() == run.detected@.len());
    let n = count_set(run.detected@) as usize;
    assert forall|k: int| 0 <= k < run.measured@.len() implies flags@[(
    #[trigger] run.measured@[k]).instance as int] == run.detected@[k] by {
        assert(run.places()[k] == run.measured@[k].instance);
    }
    assert forall|i: int|
        0 <= i < count && #[trigger] flags@[i] implies exists|k: int|
        0 <= k < run.measured@.len() && (#[trigger] run.measured@[k]).instance == i by {
        assert(run.places().contains(i as usize));
        let k = choose|k: int| 0 <= k < run.places().len() && run.places()[k] == i as usize;
        assert(run.measured@[k].instance == i);
    }
    let zs = run.redshifts();
    assert forall|i: int|
        0 <= i < count && !(#[trigger] run.input.instances@[i]).z.nan() implies run.input.instances@[i].z.at_most(
        z_max,
    ) by {
        assert(zs[i] == run.input.instances@[i].z);
    }
    if z_max.bits != 0 {
        let i = choose|i: int| 0 <= i < zs.len() && #[trigger] zs[i] == z_max;
        assert(run.input.instances@[i].z == z_max);
    }
    assert(are_rate_inputs(run, at_least_one(run.n_transients), flags@, n, z_max));
}

/// What the rates of a population are integrated from.
pub open spec fn are_rate_inputs(
    run: PopulationRun,
    asked: usize,
    flags: Seq<bool>,
    n: usize,
    z_max: Double,
) -> bool {
    &&& run.n_transients > 0 ==> asked == run.n_transients
    &&& run.n_transients == 0 ==> asked == 1
    &&& flags.len() == run.input.instances@.len()
    &&& forall|k: int|
        0 <= k < run.measured@.len() ==> flags[(#[trigger] run.measured@[k]).instance as int]
            == run.detected@[k]
    &&& forall|i: int|
        0 <= i < flags.len() && #[trigger] flags[i] ==> exists|k: int|
            0 <= k < run.measured@.len() && (#[trigger] run.measured@[k]).instance == i
    &&& n == places_set(run.detected@).len()
    &&& forall|i: int|
        0 <= i < run.input.instances@.len() && !(#[trigger] run.input.instances@[i]).z.nan()
            ==> run.input.instances@[i].z.at_most(z_max)
    &&& z_max.bits == 0 || exists|i: int|
        0 <= i < run.input.instances@.len() && (#[trigger] run.input.instances@[i]).z == z_max
}

} // verus!
