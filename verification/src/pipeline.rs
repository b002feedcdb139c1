//! Bookkeeping of a simulation run over populations.
use vstd::prelude::*;

use crate::double::Double;
use crate::matching::{
    count_detected, count_set, detection_flags, flags_of, is_maximum, judge, lemma_count_set,
    max_redshift, selected, SelectionCuts, Sighting, Verdict,
};
use crate::measurement::{
    are_sound, have_sound_tables, is_measurement, is_measurement_refused, measure_population,
    measured_places, Measured,
};
use crate::photometry::{
    build_photometry_from_eval, can_be_built, Photometry, PhotometryView,
};
use crate::sources::{
    copy_params, distinct_names, have_distinct_params, param_views, source_views, PopulationInput,
    PyDetectedSource, SourceView,
};
use crate::stacking::{BinSummary, StackedValues};
use crate::survey::{LightcurveEvaluation, SurveyObservation};

verus! {

/// One population of a run: what was generated, what was measured, and what of it was detected.
#[derive(Debug)]
pub struct PopulationRun<'a> {
    pub input: &'a PopulationInput,
    /// How many transients were asked for.
    pub n_transients: usize,
    pub measured: Vec<Measured>,
    pub detected: Vec<bool>,
}

impl<'a> PopulationRun<'a> {
    /// Every measured transient is one of those generated, none is measured twice, each has its
    /// verdict, and no transient has a model parameter twice.
    pub open spec fn wf(self) -> bool {
        &&& self.input.wf()
        &&& self.measured@.len() == self.detected@.len()
        &&& are_sound(self.input.instances@.len(), self.measured@)
    }

    /// The transients that the measured ones are.
    pub open spec fn places(self) -> Seq<usize> {
        Seq::new(self.measured@.len(), |k: int| self.measured@[k].instance)
    }

    /// Lists the redshifts of the generated transients.
    fn collect_redshifts(&self) -> (zs: Vec<Double>)
        ensures
            zs@ == self.redshifts(),
    {
        let mut zs: Vec<Double> = Vec::new();
        for i in 0..self.input.instances.len()
            invariant
                zs@.len() == i,
                forall|j: int| 0 <= j < i ==> #[trigger] zs@[j] == self.input.instances@[j].z,
        {
            zs.push(self.input.instances[i].z);
        }
        assert(zs@ =~= self.redshifts());
        zs
    }

    /// The redshifts of the generated transients.
    pub open spec fn redshifts(self) -> Seq<Double> {
        Seq::new(self.input.instances@.len(), |i: int| self.input.instances@[i].z)
    }
}

/// The source that measured transient `k` gives with some photometry.
pub open spec fn source_of(run: PopulationRun, k: int, photometry: PhotometryView) -> SourceView {
    let instance = run.input.instances@[run.measured@[k].instance as int];
    SourceView {
        true_params: param_views(instance.model_params@),
        z: instance.z,
        peak_abs_mag: instance.peak_abs_mag,
        t_exp: instance.t_exp,
        transient_type: run.input.transient_type@,
        photometry: photometry.points,
        non_detections: photometry.limits,
    }
}

/// Photometry worth a source: of a detected transient it has points, of another it has points or
/// upper limits.
pub open spec fn is_reported(detected: bool, photometry: PhotometryView) -> bool {
    photometry.points.len() > 0 || (!detected && photometry.limits.len() > 0)
}

/// The sources of the first `n` measured transients whose verdict is `detected`.
pub open spec fn sources_of(
    run: PopulationRun,
    detected: bool,
    photometry: Seq<PhotometryView>,
    n: int,
) -> Seq<SourceView>
    decreases n,
{
    if n <= 0 {
        Seq::empty()
    } else {
        let before = sources_of(run, detected, photometry, n - 1);
        let k = n - 1;
        if run.detected@[k] == detected && is_reported(detected, photometry[k]) {
            before.push(source_of(run, k, photometry[k]))
        } else {
            before
        }
    }
}

/// `photometry` can be built for measured transient `k`; measurements below the threshold are
/// kept if it was not detected.
pub open spec fn is_photometry_of<
    K: Fn(Double, Double) -> (u64, u64),
    M: Fn(Double, Double) -> (Double, Double),
    P: Fn(Double, Double, u64, u64) -> Double,
>(seeds: &K, measure: &M, perturb: &P, run: PopulationRun, k: int, photometry: PhotometryView) -> bool {
    let instance = run.input.instances@[run.measured@[k].instance as int];
    can_be_built(
        seeds,
        measure,
        perturb,
        &run.measured@[k].series.evaluation,
        run.measured@[k].series.observations@,
        instance.t_exp,
        instance.z,
        !run.detected@[k],
        photometry,
    )
}

/// Photometry that can be built for the measured transients whose verdict is `detected`.
pub open spec fn are_photometry<
    K: Fn(Double, Double) -> (u64, u64),
    M: Fn(Double, Double) -> (Double, Double),
    P: Fn(Double, Double, u64, u64) -> Double,
>(
    seeds: &K,
    measure: &M,
    perturb: &P,
    run: PopulationRun,
    detected: bool,
    photometry: Seq<PhotometryView>,
) -> bool {
    forall|k: int|
        0 <= k < photometry.len() && run.detected@[k] == detected ==> is_photometry_of(
            seeds,
            measure,
            perturb,
            run,
            k,
            #[trigger] photometry[k],
        )
}

/// `result` is the sources of the measured transients whose verdict is `detected`.
pub open spec fn are_sources<
    K: Fn(Double, Double) -> (u64, u64),
    M: Fn(Double, Double) -> (Double, Double),
    P: Fn(Double, Double, u64, u64) -> Double,
>(
    seeds: &K,
    measure: &M,
    perturb: &P,
    run: PopulationRun,
    detected: bool,
    result: Seq<SourceView>,
) -> bool {
    exists|photometry: Seq<PhotometryView>|
        photometry.len() == run.measured@.len() && #[trigger] are_photometry(
            seeds,
            measure,
            perturb,
            run,
            detected,
            photometry,
        ) && result == sources_of(run, detected, photometry, photometry.len() as int)
}

/// Builds the sources of the measured transients with one verdict. Of those detected it takes the
/// ones with a measured magnitude; of the others, measurements below the threshold are kept, and
/// an upper limit is enough.
pub fn build_sources<
    K: Fn(Double, Double) -> (u64, u64),
    M: Fn(Double, Double) -> (Double, Double),
    P: Fn(Double, Double, u64, u64) -> Double,
>(run: &PopulationRun, detected: bool, seeds: &K, measure: &M, perturb: &P) -> (res: Vec<PyDetectedSource>)
    requires
        run.wf(),
        forall|t: Double, z: Double| call_requires(*seeds, (t, z)),
        forall|depth: Double, mag: Double| call_requires(*measure, (depth, mag)),
        forall|mag: Double, err: Double, u: u64, v: u64|
            call_requires(*perturb, (mag, err, u, v)),
    ensures
        are_sources(seeds, measure, perturb, *run, detected, source_views(res@)),
{
    let mut res: Vec<PyDetectedSource> = Vec::new();
    let ghost mut built: Seq<PhotometryView> = Seq::empty();
    assert(source_views(res@) =~= Seq::empty());
    for k in 0..run.measured.len()
        invariant
            run.wf(),
            forall|t: Double, z: Double| call_requires(*seeds, (t, z)),
            forall|depth: Double, mag: Double| call_requires(*measure, (depth, mag)),
            forall|mag: Double, err: Double, u: u64, v: u64|
                call_requires(*perturb, (mag, err, u, v)),
            built.len() == k,
            are_photometry(seeds, measure, perturb, *run, detected, built),
            source_views(res@) == sources_of(*run, detected, built, k as int),
    {
        let ghost past = built;
        let ghost before = res@;
        let mut photometry = Photometry { points: Vec::new(), limits: Vec::new() };
        let measured = &run.measured[k];
        let instance = &run.input.instances[measured.instance];
        if run.detected[k] == detected {
            photometry = build_photometry_from_eval(
                &measured.series.evaluation,
                &measured.series.observations,
                instance.t_exp,
                instance.z,
                !detected,
                seeds,
                measure,
                perturb,
            );
        }
        proof {
            built = past.push(photometry@);
            lemma_sources_prefix(*run, detected, past, built, k as int);
            assert forall|j: int|
                0 <= j < built.len() && run.detected@[j] == detected implies is_photometry_of(
                seeds,
                measure,
                perturb,
                *run,
                j,
                #[trigger] built[j],
            ) by {
                if j < k {
                    assert(built[j] == past[j]);
                }
            }
        }
        let reported: bool = photometry.points.len() > 0 || (!detected && photometry.limits.len()
            > 0);
        assert(reported == is_reported(detected, photometry@));
        if run.detected[k] == detected && reported {
            let source = PyDetectedSource {
                true_params: copy_params(&instance.model_params),
                z: instance.z,
                peak_abs_mag: instance.peak_abs_mag,
                t_exp: instance.t_exp,
                transient_type: run.input.transient_type.clone(),
                photometry: photometry.points,
                non_detections: photometry.limits,
            };
            assert(source@ == source_of(*run, k as int, built[k as int]));
            res.push(source);
            assert(source_views(res@) =~= source_views(before).push(source@));
        }
    }
    res
}

/// The sources of the first `n` measured transients depend on their photometry alone.
proof fn lemma_sources_prefix(
    run: PopulationRun,
    detected: bool,
    a: Seq<PhotometryView>,
    b: Seq<PhotometryView>,
    n: int,
)
    requires
        n <= a.len(),
        n <= b.len(),
        forall|k: int| 0 <= k < n ==> a[k] == b[k],
    ensures
        sources_of(run, detected, a, n) == sources_of(run, detected, b, n),
    decreases n,
{
    if n > 0 {
        lemma_sources_prefix(run, detected, a, b, n - 1);
    }
}

/// The expected detections of one population.
#[derive(Debug)]
pub struct RateSummary {
    pub transient_type: String,
    pub volumetric_rate: Double,
    pub detections_per_year: Double,
    pub detections_total: Double,
    pub overall_efficiency: Double,
    pub survey_omega_sr: Double,
    pub z_max: Double,
}

/// What a rate summary says, the type as characters.
#[verifier::ext_equal]
pub struct RateView {
    pub transient_type: Seq<char>,
    pub volumetric_rate: Double,
    pub detections_per_year: Double,
    pub detections_total: Double,
    pub overall_efficiency: Double,
    pub survey_omega_sr: Double,
    pub z_max: Double,
}

impl View for RateSummary {
    type V = RateView;

    open spec fn view(&self) -> RateView {
        RateView {
            transient_type: self.transient_type@,
            volumetric_rate: self.volumetric_rate,
            detections_per_year: self.detections_per_year,
            detections_total: self.detections_total,
            overall_efficiency: self.overall_efficiency,
            survey_omega_sr: self.survey_omega_sr,
            z_max: self.z_max,
        }
    }
}

/// The counts of one population, and its effective volume-time.
#[derive(Clone, Copy, Debug, PartialEq, Eq, Structural)]
pub struct TypeExtras {
    pub n_simulated: usize,
    pub n_detected: usize,
    pub effective_vt_gpc3_yr: Double,
}

/// The rates integrated for one population.
#[derive(Clone, Copy, Debug)]
pub struct Rates {
    pub detections_per_year: Double,
    pub detections_total: Double,
    pub overall_efficiency: Double,
    pub survey_omega_sr: Double,
    pub effective_vt_gpc3_yr: Double,
}

/// The result of a run over populations.
#[derive(Debug)]
pub struct PipelineResult {
    pub n_simulated: usize,
    pub n_detected: usize,
    pub n_undetected: usize,
    pub rate_summaries: Vec<RateSummary>,
    pub per_type_extras: Vec<TypeExtras>,
    pub detected_sources: Vec<PyDetectedSource>,
    pub undetected_sources: Vec<PyDetectedSource>,
}

/// The transients simulated over all populations.
pub open spec fn total_simulated(extras: Seq<TypeExtras>) -> int
    decreases extras.len(),
{
    if extras.len() == 0 {
        0
    } else {
        total_simulated(extras.drop_last()) + extras.last().n_simulated
    }
}

/// The transients detected over all populations.
pub open spec fn total_detected(extras: Seq<TypeExtras>) -> int
    decreases extras.len(),
{
    if extras.len() == 0 {
        0
    } else {
        total_detected(extras.drop_last()) + extras.last().n_detected
    }
}

/// `summary` is that of a population with the given rates.
pub open spec fn is_rate_summary(run: PopulationRun, rates: Rates, summary: RateSummary) -> bool {
    &&& summary.transient_type@ == run.input.transient_type@
    &&& summary.volumetric_rate == run.input.volumetric_rate
    &&& summary.detections_per_year == rates.detections_per_year
    &&& summary.detections_total == rates.detections_total
    &&& summary.overall_efficiency == rates.overall_efficiency
    &&& summary.survey_omega_sr == rates.survey_omega_sr
    &&& is_maximum(run.redshifts(), summary.z_max)
}

/// Every source has photometry worth reporting.
pub open spec fn all_reported(detected: bool, sources: Seq<SourceView>) -> bool {
    forall|j: int|
        0 <= j < sources.len() ==> (#[trigger] sources[j]).photometry.len() > 0 || (!detected
            && sources[j].non_detections.len() > 0)
}

impl PipelineResult {
    /// The totals are those of the populations, each undetected source is counted, a detected
    /// source is a counted detection, each population has a summary and counts, detected sources
    /// have measured magnitudes, other sources have magnitudes or upper limits, and no source names
    /// a true parameter twice.
    pub open spec fn wf(self) -> bool {
        &&& self.n_simulated == total_simulated(self.per_type_extras@)
        &&& self.n_detected == total_detected(self.per_type_extras@)
        &&& self.n_undetected == self.undetected_sources@.len()
        &&& self.detected_sources@.len() <= self.n_detected
        &&& self.rate_summaries@.len() == self.per_type_extras@.len()
        &&& all_reported(true, source_views(self.detected_sources@))
        &&& all_reported(false, source_views(self.undetected_sources@))
        &&& have_distinct_params(source_views(self.detected_sources@))
        &&& have_distinct_params(source_views(self.undetected_sources@))
    }

    /// Nothing has been entered.
    pub open spec fn is_fresh(self) -> bool {
        &&& self.n_simulated == 0
        &&& self.n_detected == 0
        &&& self.n_undetected == 0
        &&& self.rate_summaries@.len() == 0
        &&& self.per_type_extras@.len() == 0
        &&& self.detected_sources@.len() == 0
        &&& self.undetected_sources@.len() == 0
    }

    /// A run without populations.
    pub fn new() -> (res: PipelineResult)
        ensures
            res.wf(),
            res.is_fresh(),
    {
        PipelineResult {
            n_simulated: 0,
            n_detected: 0,
            n_undetected: 0,
            rate_summaries: Vec::new(),
            per_type_extras: Vec::new(),
            detected_sources: Vec::new(),
            undetected_sources: Vec::new(),
        }
    }

    /// Enters a population: its rates, its counts, and its sources. Sources that were not detected
    /// are entered if `include_undetected` asks for them.
    pub fn record_population<
        K: Fn(Double, Double) -> (u64, u64),
        M: Fn(Double, Double) -> (Double, Double),
        P: Fn(Double, Double, u64, u64) -> Double,
    >(
        &mut self,
        run: &PopulationRun,
        rates: Rates,
        include_undetected: bool,
        seeds: &K,
        measure: &M,
        perturb: &P,
    )
        requires
            old(self).wf(),
            run.wf(),
            old(self).n_simulated + run.n_transients <= usize::MAX,
            old(self).n_detected + count_set(run.detected@) <= usize::MAX,
            include_undetected ==> old(self).undetected_sources@.len() + run.measured@.len()
                <= usize::MAX,
            forall|t: Double, z: Double| call_requires(*seeds, (t, z)),
            forall|depth: Double, mag: Double| call_requires(*measure, (depth, mag)),
            forall|mag: Double, err: Double, u: u64, v: u64|
                call_requires(*perturb, (mag, err, u, v)),
        ensures
            final(self).wf(),
            is_recorded(
                seeds,
                measure,
                perturb,
                *run,
                rates,
                include_undetected,
                *old(self),
                *final(self),
            ),
    {
        let n_detected: usize = count_detected(&run.detected);
        let zs = run.collect_redshifts();
        let ghost summaries = self.rate_summaries@;
        let ghost extras = self.per_type_extras@;
        self.rate_summaries.push(
            RateSummary {
                transient_type: run.input.transient_type.clone(),
                volumetric_rate: run.input.volumetric_rate,
                detections_per_year: rates.detections_per_year,
                detections_total: rates.detections_total,
                overall_efficiency: rates.overall_efficiency,
                survey_omega_sr: rates.survey_omega_sr,
                z_max: max_redshift(&zs),
            },
        );
        assert(self.rate_summaries@.drop_last() =~= summaries);
        self.per_type_extras.push(
            TypeExtras {
                n_simulated: run.n_transients,
                n_detected,
                effective_vt_gpc3_yr: rates.effective_vt_gpc3_yr,
            },
        );
        assert(self.per_type_extras@.drop_last() =~= extras);
        let mut found = build_sources(run, true, seeds, measure, perturb);
        proof {
            law_sources_bounded(seeds, measure, perturb, *run, true, source_views(found@));
            assert(source_views(self.detected_sources@ + found@) =~= source_views(
                self.detected_sources@,
            ) + source_views(found@));
        }
        self.detected_sources.append(&mut found);
        if include_undetected {
            let mut missed = build_sources(run, false, seeds, measure, perturb);
            proof {
                law_sources_bounded(seeds, measure, perturb, *run, false, source_views(missed@));
                assert(source_views(self.undetected_sources@ + missed@) =~= source_views(
                    self.undetected_sources@,
                ) + source_views(missed@));
            }
            self.n_undetected = self.n_undetected + missed.len();
            self.undetected_sources.append(&mut missed);
        }
        self.n_simulated = self.n_simulated + run.n_transients;
        self.n_detected = self.n_detected + n_detected;
    }
}

/// `after` is `before` with a population entered.
pub open spec fn is_recorded<
    K: Fn(Double, Double) -> (u64, u64),
    M: Fn(Double, Double) -> (Double, Double),
    P: Fn(Double, Double, u64, u64) -> Double,
>(
    seeds: &K,
    measure: &M,
    perturb: &P,
    run: PopulationRun,
    rates: Rates,
    include_undetected: bool,
    before: PipelineResult,
    after: PipelineResult,
) -> bool {
    &&& after.n_simulated == before.n_simulated + run.n_transients
    &&& after.n_detected == before.n_detected + count_set(run.detected@)
    &&& after.n_undetected == before.n_undetected + (after.undetected_sources@.len()
        - before.undetected_sources@.len())
    &&& after.rate_summaries@.len() == before.rate_summaries@.len() + 1
    &&& after.rate_summaries@.drop_last() == before.rate_summaries@
    &&& is_rate_summary(run, rates, after.rate_summaries@.last())
    &&& after.per_type_extras@ == before.per_type_extras@.push(
        TypeExtras {
            n_simulated: run.n_transients,
            n_detected: count_set(run.detected@) as usize,
            effective_vt_gpc3_yr: rates.effective_vt_gpc3_yr,
        },
    )
    &&& is_extended(
        seeds,
        measure,
        perturb,
        run,
        true,
        before.detected_sources@,
        after.detected_sources@,
    )
    &&& include_undetected ==> is_extended(
        seeds,
        measure,
        perturb,
        run,
        false,
        before.undetected_sources@,
        after.undetected_sources@,
    )
    &&& !include_undetected ==> after.undetected_sources@ == before.undetected_sources@
}

/// `after` is `before` with the sources of the measured transients whose verdict is `detected`.
pub open spec fn is_extended<
    K: Fn(Double, Double) -> (u64, u64),
    M: Fn(Double, Double) -> (Double, Double),
    P: Fn(Double, Double, u64, u64) -> Double,
>(
    seeds: &K,
    measure: &M,
    perturb: &P,
    run: PopulationRun,
    detected: bool,
    before: Seq<PyDetectedSource>,
    after: Seq<PyDetectedSource>,
) -> bool {
    exists|added: Seq<SourceView>| #[trigger]
        are_sources(seeds, measure, perturb, run, detected, added) && source_views(after) == source_views(
            before,
        ) + added
}

/// There is at most one source for each measured transient with the verdict.
proof fn lemma_sources_of_count(
    run: PopulationRun,
    detected: bool,
    photometry: Seq<PhotometryView>,
    n: int,
)
    requires
        0 <= n <= run.detected@.len(),
    ensures
        sources_of(run, detected, photometry, n).len() <= n,
        detected ==> sources_of(run, detected, photometry, n).len() <= count_set(
            run.detected@.take(n),
        ),
    decreases n,
{
    if n > 0 {
        lemma_sources_of_count(run, detected, photometry, n - 1);
        assert(run.detected@.take(n).drop_last() =~= run.detected@.take(n - 1));
    }
}

/// Sources are no more than measured transients, detected sources no more than detections, all
/// have photometry worth reporting, and none names a true parameter twice.
pub proof fn law_sources_bounded<
    K: Fn(Double, Double) -> (u64, u64),
    M: Fn(Double, Double) -> (Double, Double),
    P: Fn(Double, Double, u64, u64) -> Double,
>(seeds: &K, measure: &M, perturb: &P, run: PopulationRun, detected: bool, added: Seq<SourceView>)
    requires
        run.wf(),
        are_sources(seeds, measure, perturb, run, detected, added),
    ensures
        added.len() <= run.measured@.len(),
        detected ==> added.len() <= count_set(run.detected@),
        all_reported(detected, added),
        have_distinct_params(added),
{
    let photometry = choose|photometry: Seq<PhotometryView>|
        photometry.len() == run.measured@.len() && #[trigger] are_photometry(
            seeds,
            measure,
            perturb,
            run,
            detected,
            photometry,
        ) && added == sources_of(run, detected, photometry, photometry.len() as int);
    lemma_sources_of_count(run, detected, photometry, photometry.len() as int);
    lemma_sources_reported(run, detected, photometry, photometry.len() as int);
    lemma_sources_keep_params(run, detected, photometry, photometry.len() as int);
    assert(run.detected@.take(photometry.len() as int) =~= run.detected@);
}

/// Every source carries the type of its population.
pub proof fn law_source_types<
    K: Fn(Double, Double) -> (u64, u64),
    M: Fn(Double, Double) -> (Double, Double),
    P: Fn(Double, Double, u64, u64) -> Double,
>(
    seeds: &K,
    measure: &M,
    perturb: &P,
    run: PopulationRun,
    detected: bool,
    added: Seq<SourceView>,
)
    requires
        are_sources(seeds, measure, perturb, run, detected, added),
    ensures
        forall|j: int|
            0 <= j < added.len() ==> (#[trigger] added[j]).transient_type
                == run.input.transient_type@,
{
    let photometry = choose|photometry: Seq<PhotometryView>|
        photometry.len() == run.measured@.len() && #[trigger] are_photometry(
            seeds,
            measure,
            perturb,
            run,
            detected,
            photometry,
        ) && added == sources_of(run, detected, photometry, photometry.len() as int);
    lemma_sources_reported(run, detected, photometry, photometry.len() as int);
}

/// A source has the parameters of its transient.
proof fn lemma_sources_keep_params(
    run: PopulationRun,
    detected: bool,
    photometry: Seq<PhotometryView>,
    n: int,
)
    requires
        run.wf(),
        n <= run.measured@.len(),
    ensures
        have_distinct_params(sources_of(run, detected, photometry, n)),
    decreases n,
{
    if n > 0 {
        lemma_sources_keep_params(run, detected, photometry, n - 1);
        let before = sources_of(run, detected, photometry, n - 1);
        let all = sources_of(run, detected, photometry, n);
        let instance = run.input.instances@[run.measured@[n - 1].instance as int];
        assert(instance.wf());
        assert forall|j: int| 0 <= j < all.len() implies distinct_names(
            (#[trigger] all[j]).true_params,
        ) by {
            if j < before.len() {
                assert(all[j] == before[j]);
            }
        }
    }
}

/// Every source carries the type of its population and has photometry worth reporting.
proof fn lemma_sources_reported(
    run: PopulationRun,
    detected: bool,
    photometry: Seq<PhotometryView>,
    n: int,
)
    ensures
        forall|j: int|
            0 <= j < sources_of(run, detected, photometry, n).len() ==> (#[trigger] sources_of(
                run,
                detected,
                photometry,
                n,
            )[j]).transient_type == run.input.transient_type@,
        all_reported(detected, sources_of(run, detected, photometry, n)),
    decreases n,
{
    if n > 0 {
        lemma_sources_reported(run, detected, photometry, n - 1);
        let before = sources_of(run, detected, photometry, n - 1);
        let all = sources_of(run, detected, photometry, n);
        assert forall|j: int| 0 <= j < all.len() implies (#[trigger] all[j]).transient_type
            == run.input.transient_type@ && (all[j].photometry.len() > 0 || (!detected
            && all[j].non_detections.len() > 0)) by {
            if j < before.len() {
                assert(all[j] == before[j]);
            }
        }
    }
}

/// The settings of a run that decide what is reported.
#[derive(Debug)]
pub struct RunSettings {
    pub cuts: SelectionCuts,
    /// How many transients are asked for of each population.
    pub n_transients: usize,
    /// How many days after the explosion exposures count, in the frame of the transient.
    pub time_window_days: Double,
    /// Time windows to stack at, in days.
    pub windows_days: Option<Vec<Double>>,
    pub include_undetected: bool,
}

/// `run` is a population with its transients measured and judged: `detect` can give the verdicts,
/// and the cuts are applied to them.
pub open spec fn is_judged<D: Fn(&PopulationInput, &Vec<Measured>) -> Vec<Verdict>>(
    detect: &D,
    settings: RunSettings,
    input: &PopulationInput,
    run: PopulationRun,
) -> bool {
    &&& run.input == input
    &&& run.n_transients == settings.n_transients
    &&& exists|verdicts: Vec<Verdict>| #[trigger]
        call_ensures(*detect, (input, &run.measured), verdicts) && run.detected@ == selected(
            settings.cuts,
            verdicts@,
        )
}

/// The number that detections are divided by for an efficiency.
pub open spec fn at_least_one(n: usize) -> usize {
    if n == 0 {
        1
    } else {
        n
    }
}

/// The number that detections are divided by for an efficiency.
pub fn divisor(n: usize) -> (res: usize)
    ensures
        res == at_least_one(n),
{
    if n == 0 {
        1
    } else {
        n
    }
}

/// `rates` is what `integrate` can give for a population: from the number that detections are
/// divided by, the transients asked for but at least one, the verdict on each generated one, the number of detections and the largest redshift.
pub open spec fn are_rates<R: Fn(&PopulationInput, usize, &Vec<bool>, usize, Double) -> Rates>(
    integrate: &R,
    run: PopulationRun,
    rates: Rates,
) -> bool {
    exists|flags: Vec<bool>, z_max: Double|
        flags@ == flags_of(run.input.instances@.len(), run.places(), run.detected@)
            && is_maximum(run.redshifts(), z_max) && #[trigger] call_ensures(
            *integrate,
            (run.input, at_least_one(run.n_transients), &flags, count_set(run.detected@) as usize, z_max),
            rates,
        )
}

/// What a run calls can be called on everything; lightcurves have sound tables of magnitudes, and
/// every measured transient gets a verdict.
pub open spec fn is_ready<
    E: Fn(&PopulationInput, usize, &Vec<Sighting>) -> Vec<Option<LightcurveEvaluation>>,
    F: Fn(usize) -> SurveyObservation,
    L: Fn(Double, Double) -> Double,
    C: Fn(&BinSummary) -> StackedValues,
    D: Fn(&PopulationInput, &Vec<Measured>) -> Vec<Verdict>,
    R: Fn(&PopulationInput, usize, &Vec<bool>, usize, Double) -> Rates,
    K: Fn(Double, Double) -> (u64, u64),
    M: Fn(Double, Double) -> (Double, Double),
    P: Fn(Double, Double, u64, u64) -> Double,
>(
    evaluate: &E,
    fetch: &F,
    elapsed: &L,
    average: &C,
    detect: &D,
    integrate: &R,
    seeds: &K,
    measure: &M,
    perturb: &P,
) -> bool {
    &&& forall|input: PopulationInput, model: usize, sightings: Vec<Sighting>|
        call_requires(*evaluate, (&input, model, &sightings))
    &&& forall|
        input: PopulationInput,
        model: usize,
        sightings: Vec<Sighting>,
        results: Vec<Option<LightcurveEvaluation>>,
    | #[trigger]
        call_ensures(*evaluate, (&input, model, &sightings), results) ==> have_sound_tables(
            results@,
        )
    &&& forall|i: usize| call_requires(*fetch, (i,))
    &&& forall|t: Double, start: Double| call_requires(*elapsed, (t, start))
    &&& forall|summary: BinSummary| call_requires(*average, (&summary,))
    &&& forall|input: PopulationInput, measured: Vec<Measured>|
        call_requires(*detect, (&input, &measured))
    &&& forall|input: PopulationInput, measured: Vec<Measured>, verdicts: Vec<Verdict>| #[trigger]
        call_ensures(*detect, (&input, &measured), verdicts) ==> verdicts@.len()
            == measured@.len()
    &&& forall|input: PopulationInput, asked: usize, flags: Vec<bool>, n: usize, z: Double|
        call_requires(*integrate, (&input, asked, &flags, n, z))
    &&& forall|t: Double, z: Double| call_requires(*seeds, (t, z))
    &&& forall|depth: Double, mag: Double| call_requires(*measure, (depth, mag))
    &&& forall|mag: Double, err: Double, u: u64, v: u64| call_requires(*perturb, (mag, err, u, v))
}

/// `after` is `before` with a population measured, judged and entered.
pub open spec fn is_entered<
    E: Fn(&PopulationInput, usize, &Vec<Sighting>) -> Vec<Option<LightcurveEvaluation>>,
    F: Fn(usize) -> SurveyObservation,
    L: Fn(Double, Double) -> Double,
    C: Fn(&BinSummary) -> StackedValues,
    D: Fn(&PopulationInput, &Vec<Measured>) -> Vec<Verdict>,
    R: Fn(&PopulationInput, usize, &Vec<bool>, usize, Double) -> Rates,
    K: Fn(Double, Double) -> (u64, u64),
    M: Fn(Double, Double) -> (Double, Double),
    P: Fn(Double, Double, u64, u64) -> Double,
>(
    evaluate: &E,
    fetch: &F,
    elapsed: &L,
    average: &C,
    detect: &D,
    integrate: &R,
    seeds: &K,
    measure: &M,
    perturb: &P,
    input: &PopulationInput,
    model: usize,
    queries: Seq<Vec<usize>>,
    settings: RunSettings,
    before: PipelineResult,
    after: PipelineResult,
) -> bool {
    exists|run: PopulationRun, rates: Rates|
        run.wf() && is_measurement(
            evaluate,
            fetch,
            elapsed,
            average,
            input,
            model,
            queries,
            settings.windows_days,
            run.measured@,
        ) && is_judged(detect, settings, input, run) && are_rates(
            integrate,
            run,
            rates,
        ) && #[trigger] is_recorded(
            seeds,
            measure,
            perturb,
            run,
            rates,
            settings.include_undetected,
            before,
            after,
        )
}

/// Runs one population: its transients are measured, judged and entered in the result.
///
/// Its lightcurves come from model `model`.
/// `queries` lists the exposures found for each transient. `detect` judges measured transients,
/// and `integrate` gives the rates from the verdict on every generated transient, where those that
/// were not measured count as not detected.
///
/// The result is left as it was, and `false` is the answer, when stacking has none for some
/// transient.
pub fn run_population<
    E: Fn(&PopulationInput, usize, &Vec<Sighting>) -> Vec<Option<LightcurveEvaluation>>,
    F: Fn(usize) -> SurveyObservation,
    L: Fn(Double, Double) -> Double,
    C: Fn(&BinSummary) -> StackedValues,
    D: Fn(&PopulationInput, &Vec<Measured>) -> Vec<Verdict>,
    R: Fn(&PopulationInput, usize, &Vec<bool>, usize, Double) -> Rates,
    K: Fn(Double, Double) -> (u64, u64),
    M: Fn(Double, Double) -> (Double, Double),
    P: Fn(Double, Double, u64, u64) -> Double,
>(
    result: &mut PipelineResult,
    input: &PopulationInput,
    model: usize,
    queries: &Vec<Vec<usize>>,
    settings: &RunSettings,
    evaluate: &E,
    fetch: &F,
    elapsed: &L,
    average: &C,
    detect: &D,
    integrate: &R,
    seeds: &K,
    measure: &M,
    perturb: &P,
) -> (done: bool)
    requires
        old(result).wf(),
        input.wf(),
        queries@.len() == input.instances@.len(),
        old(result).n_simulated + settings.n_transients <= usize::MAX,
        old(result).n_detected + input.instances@.len() <= usize::MAX,
        settings.include_undetected ==> old(result).undetected_sources@.len()
            + input.instances@.len() <= usize::MAX,
        is_ready(evaluate, fetch, elapsed, average, detect, integrate, seeds, measure, perturb),
    ensures
        final(result).wf(),
        done ==> is_entered(
            evaluate,
            fetch,
            elapsed,
            average,
            detect,
            integrate,
            seeds,
            measure,
            perturb,
            input,
            model,
            queries@,
            *settings,
            *old(result),
            *final(result),
        ),
        !done ==> *final(result) == *old(result) && is_measurement_refused(
            evaluate,
            fetch,
            elapsed,
            average,
            input,
            model,
            queries@,
            settings.windows_days,
        ),
{
    let found = measure_population(
        input,
        model,
        queries,
        &settings.windows_days,
        evaluate,
        fetch,
        elapsed,
        average,
    );
    match found {
        None => false,
        Some(measured) => {
            let verdicts = detect(input, &measured);
            let detected = judge(&settings.cuts, &verdicts);
            let run = PopulationRun {
                input,
                n_transients: settings.n_transients,
                measured,
                detected,
            };
            proof {
                lemma_ascending_bounded(run.measured@, run.input.instances@.len());
                lemma_count_set(run.detected@);
                assert(is_judged(detect, *settings, input, run));
            }
            let places = measured_places(&run.measured);
            let flags = detection_flags(run.input.instances.len(), &places, &run.detected);
            let n_detected: usize = count_detected(&run.detected);
            let zs = run.collect_redshifts();
            let z_max = max_redshift(&zs);
            let rates = integrate(input, divisor(run.n_transients), &flags, n_detected, z_max);
            assert(are_rates(integrate, run, rates)) by {
                assert(call_ensures(
                    *integrate,
                    (run.input, at_least_one(run.n_transients), &flags, count_set(run.detected@) as usize, z_max),
                    rates,
                ));
            }
            result.record_population(&run, rates, settings.include_undetected, seeds, measure, perturb);
            true
        },
    }
}

/// Transients that ascend below a bound are no more than the bound.
pub proof fn lemma_ascending_bounded(measured: Seq<Measured>, count: nat)
    requires
        are_sound(count, measured),
    ensures
        measured.len() <= count,
{
    if measured.len() > 0 {
        lemma_at_least_index(measured, count, measured.len() - 1);
    }
}

proof fn lemma_at_least_index(measured: Seq<Measured>, count: nat, k: int)
    requires
        are_sound(count, measured),
        0 <= k < measured.len(),
    ensures
        measured[k].instance >= k,
    decreases k,
{
    if k > 0 {
        lemma_at_least_index(measured, count, k - 1);
        assert(measured[k - 1].instance < measured[k].instance);
    }
}

} // verus!
