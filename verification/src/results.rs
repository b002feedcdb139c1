//! Results as a user sees them.
use vstd::prelude::*;
use vstd::string::StringExecFns;

use crate::dispatch::PipelineError;
use crate::double::{Double, INFINITE_MAGNITUDE};
use crate::pipeline::{at_least_one, divisor, PipelineResult, RateSummary, TypeExtras};
use crate::sources::{source_views, PyDetectedSource};
use crate::text::{
    comma_joined, decimal, decimal_text, is_sorted_unique, join_with_commas, sorted_unique, texts,
};

verus! {

/// The rate of one population: what was assumed, what was simulated, and what is expected.
#[derive(Debug)]
pub struct PyRateSummary {
    pub transient_type: String,
    /// Assumed volumetric rate in Gpc^-3 yr^-1.
    pub volumetric_rate: Double,
    /// Expected detections per year.
    pub detections_per_year: Double,
    /// Expected detections over the survey.
    pub detections_total: Double,
    /// Fraction of simulated transients that were detected.
    pub overall_efficiency: Double,
    pub n_simulated: usize,
    pub n_detected: usize,
    /// Largest redshift drawn.
    pub z_max: Double,
    /// Survey solid angle in steradians.
    pub survey_omega_sr: Double,
    pub survey_duration_years: Double,
    /// Effective volume-time in Gpc^3 yr at unit rate.
    pub effective_vt_gpc3_yr: Double,
}

impl Clone for PyRateSummary {
    fn clone(&self) -> (res: Self)
        ensures
            res == *self,
    {
        PyRateSummary {
            transient_type: self.transient_type.clone(),
            volumetric_rate: self.volumetric_rate,
            detections_per_year: self.detections_per_year,
            detections_total: self.detections_total,
            overall_efficiency: self.overall_efficiency,
            n_simulated: self.n_simulated,
            n_detected: self.n_detected,
            z_max: self.z_max,
            survey_omega_sr: self.survey_omega_sr,
            survey_duration_years: self.survey_duration_years,
            effective_vt_gpc3_yr: self.effective_vt_gpc3_yr,
        }
    }
}

/// A Poisson upper limit on a volumetric rate.
#[derive(Debug)]
pub struct PyRateUpperLimit {
    pub transient_type: String,
    /// Number of events observed.
    pub n_observed: u64,
    pub confidence_level: Double,
    /// Upper limit on the count.
    pub n_upper: Double,
    pub effective_vt_gpc3_yr: Double,
    /// Upper limit on the rate in Gpc^-3 yr^-1.
    pub rate_upper: Double,
    pub survey_duration_years: Double,
    pub survey_omega_sr: Double,
}

impl Clone for PyRateUpperLimit {
    fn clone(&self) -> (res: Self)
        ensures
            res == *self,
    {
        PyRateUpperLimit {
            transient_type: self.transient_type.clone(),
            n_observed: self.n_observed,
            confidence_level: self.confidence_level,
            n_upper: self.n_upper,
            effective_vt_gpc3_yr: self.effective_vt_gpc3_yr,
            rate_upper: self.rate_upper,
            survey_duration_years: self.survey_duration_years,
            survey_omega_sr: self.survey_omega_sr,
        }
    }
}

/// The result of a simulation.
#[derive(Debug)]
pub struct PySimulationResult {
    pub n_simulated: usize,
    pub n_detected: usize,
    pub n_undetected: usize,
    pub rate_summaries: Vec<PyRateSummary>,
    pub detected_sources: Vec<PyDetectedSource>,
    pub undetected_sources: Vec<PyDetectedSource>,
}

/// The counts at a place, zeros if there are none.
pub open spec fn extras_at(extras: Seq<TypeExtras>, i: int) -> TypeExtras {
    if 0 <= i < extras.len() {
        extras[i]
    } else {
        TypeExtras { n_simulated: 0, n_detected: 0, effective_vt_gpc3_yr: Double { bits: 0 } }
    }
}

/// `shown` is a rate summary with its counts and the duration of the survey.
pub open spec fn is_shown(
    summary: RateSummary,
    extras: TypeExtras,
    duration_years: Double,
    shown: PyRateSummary,
) -> bool {
    &&& shown.transient_type == summary.transient_type
    &&& shown.volumetric_rate == summary.volumetric_rate
    &&& shown.detections_per_year == summary.detections_per_year
    &&& shown.detections_total == summary.detections_total
    &&& shown.overall_efficiency == summary.overall_efficiency
    &&& shown.n_simulated == extras.n_simulated
    &&& shown.n_detected == extras.n_detected
    &&& shown.z_max == summary.z_max
    &&& shown.survey_omega_sr == summary.survey_omega_sr
    &&& shown.survey_duration_years == duration_years
    &&& shown.effective_vt_gpc3_yr == extras.effective_vt_gpc3_yr
}

/// The texts of the numbers of a rate summary that are not whole.
#[derive(Debug)]
pub struct RateTexts {
    pub rate: String,
    pub efficiency: String,
    pub per_year: String,
    pub total: String,
    pub z_max: String,
    pub omega: String,
    pub duration: String,
    pub vt: String,
}

/// `texts` are those of a summary. `scientific` writes a number with an exponent and three
/// decimals, `fixed` writes one without an exponent and with the given number of decimals.
pub open spec fn are_rate_texts<S: Fn(Double) -> String, X: Fn(Double, usize) -> String>(
    scientific: &S,
    fixed: &X,
    summary: PyRateSummary,
    texts: RateTexts,
) -> bool {
    &&& call_ensures(*scientific, (summary.volumetric_rate,), texts.rate)
    &&& call_ensures(*fixed, (summary.overall_efficiency, 4usize), texts.efficiency)
    &&& call_ensures(*scientific, (summary.detections_per_year,), texts.per_year)
    &&& call_ensures(*scientific, (summary.detections_total,), texts.total)
    &&& call_ensures(*fixed, (summary.z_max, 2usize), texts.z_max)
    &&& call_ensures(*scientific, (summary.survey_omega_sr,), texts.omega)
    &&& call_ensures(*fixed, (summary.survey_duration_years, 2usize), texts.duration)
    &&& call_ensures(*scientific, (summary.effective_vt_gpc3_yr,), texts.vt)
}

/// The line that stands for a rate summary.
pub open spec fn rate_line(summary: PyRateSummary, shown: RateTexts) -> Seq<char> {
    "RateSummary(type="@ + summary.transient_type@ + ", rate="@ + shown.rate@
        + " Gpc^-3/yr, n_sim="@ + decimal(summary.n_simulated as int) + ", n_det="@ + decimal(
        summary.n_detected as int,
    ) + ", eff="@ + shown.efficiency@ + ", det/yr="@ + shown.per_year@ + ", det_total="@
        + shown.total@ + ", z_max="@ + shown.z_max@ + ", omega_sr="@ + shown.omega@ + ", T="@
        + shown.duration@ + " yr, VT_eff="@ + shown.vt@ + " Gpc^3 yr)"@
}

/// The rate that a count limit stands for: no limit without a positive volume-time.
pub open spec fn is_rate_limit<V: Fn(Double, Double) -> Double>(
    divide: &V,
    n_upper: Double,
    vt: Double,
    rate: Double,
) -> bool {
    if (Double { bits: 0 }).below(vt) {
        call_ensures(*divide, (n_upper, vt), rate)
    } else {
        rate == (Double { bits: INFINITE_MAGNITUDE })
    }
}

/// `limit` is the upper limit on the rate of a summary when `n_observed` events were observed.
pub open spec fn is_upper_limit<
    Q: Fn(u64, Double) -> Double,
    V: Fn(Double, Double) -> Double,
>(
    poisson: &Q,
    divide: &V,
    summary: PyRateSummary,
    confidence_level: Double,
    n_observed: u64,
    limit: PyRateUpperLimit,
) -> bool {
    &&& limit.transient_type == summary.transient_type
    &&& limit.n_observed == n_observed
    &&& limit.confidence_level == confidence_level
    &&& call_ensures(*poisson, (n_observed, confidence_level), limit.n_upper)
    &&& limit.effective_vt_gpc3_yr == summary.effective_vt_gpc3_yr
    &&& is_rate_limit(divide, limit.n_upper, summary.effective_vt_gpc3_yr, limit.rate_upper)
    &&& limit.survey_duration_years == summary.survey_duration_years
    &&& limit.survey_omega_sr == summary.survey_omega_sr
}

impl PyRateSummary {
    /// The Poisson upper limit on the rate when `n_observed` events were observed. `poisson` gives
    /// the limit on the count, and `divide` divides it by the effective volume-time; without a
    /// positive volume-time the limit is infinite.
    pub fn upper_limit<Q: Fn(u64, Double) -> Double, V: Fn(Double, Double) -> Double>(
        &self,
        confidence_level: Double,
        n_observed: u64,
        poisson: &Q,
        divide: &V,
    ) -> (res: PyRateUpperLimit)
        requires
            forall|n: u64, level: Double| call_requires(*poisson, (n, level)),
            forall|a: Double, b: Double| call_requires(*divide, (a, b)),
        ensures
            is_upper_limit(poisson, divide, *self, confidence_level, n_observed, res),
    {
        let n_upper = poisson(n_observed, confidence_level);
        let zero = Double { bits: 0 };
        let rate_upper = if zero.lt(&self.effective_vt_gpc3_yr) {
            divide(n_upper, self.effective_vt_gpc3_yr)
        } else {
            Double { bits: INFINITE_MAGNITUDE }
        };
        PyRateUpperLimit {
            transient_type: self.transient_type.clone(),
            n_observed,
            confidence_level,
            n_upper,
            effective_vt_gpc3_yr: self.effective_vt_gpc3_yr,
            rate_upper,
            survey_duration_years: self.survey_duration_years,
            survey_omega_sr: self.survey_omega_sr,
        }
    }

    /// Writes the numbers that are not whole.
    fn rate_texts<S: Fn(Double) -> String, X: Fn(Double, usize) -> String>(
        &self,
        scientific: &S,
        fixed: &X,
    ) -> (texts: RateTexts)
        requires
            forall|x: Double| call_requires(*scientific, (x,)),
            forall|x: Double, decimals: usize| call_requires(*fixed, (x, decimals)),
        ensures
            are_rate_texts(scientific, fixed, *self, texts),
    {
        RateTexts {
            rate: scientific(self.volumetric_rate),
            efficiency: fixed(self.overall_efficiency, 4),
            per_year: scientific(self.detections_per_year),
            total: scientific(self.detections_total),
            z_max: fixed(self.z_max, 2),
            omega: scientific(self.survey_omega_sr),
            duration: fixed(self.survey_duration_years, 2),
            vt: scientific(self.effective_vt_gpc3_yr),
        }
    }

    /// One line on the rate. `scientific` writes a number with an exponent and three decimals,
    /// `fixed` writes one without an exponent and with the given number of decimals.
    pub fn __repr__<S: Fn(Double) -> String, X: Fn(Double, usize) -> String>(
        &self,
        scientific: &S,
        fixed: &X,
    ) -> (res: String)
        requires
            forall|x: Double| call_requires(*scientific, (x,)),
            forall|x: Double, decimals: usize| call_requires(*fixed, (x, decimals)),
        ensures
            exists|texts: RateTexts| #[trigger]
                are_rate_texts(scientific, fixed, *self, texts) && res@ == rate_line(*self, texts),
    {
        let shown = self.rate_texts(scientific, fixed);
        let mut res = String::from_str("RateSummary(type=");
        res.append(self.transient_type.as_str());
        res.append(", rate=");
        res.append(shown.rate.as_str());
        res.append(" Gpc^-3/yr, n_sim=");
        res.append(decimal_text(self.n_simulated as u64).as_str());
        res.append(", n_det=");
        res.append(decimal_text(self.n_detected as u64).as_str());
        res.append(", eff=");
        res.append(shown.efficiency.as_str());
        res.append(", det/yr=");
        res.append(shown.per_year.as_str());
        res.append(", det_total=");
        res.append(shown.total.as_str());
        res.append(", z_max=");
        res.append(shown.z_max.as_str());
        res.append(", omega_sr=");
        res.append(shown.omega.as_str());
        res.append(", T=");
        res.append(shown.duration.as_str());
        res.append(" yr, VT_eff=");
        res.append(shown.vt.as_str());
        res.append(" Gpc^3 yr)");
        res
    }
}

/// The line that stands for an upper limit, with the texts of its confidence level in percent, its
/// rate, its count and its volume-time.
pub open spec fn limit_line(
    limit: PyRateUpperLimit,
    level: String,
    rate: String,
    count: String,
    vt: String,
) -> Seq<char> {
    "RateUpperLimit(type="@ + limit.transient_type@ + ", N="@ + decimal(limit.n_observed as int)
        + ", CL="@ + level@ + "%, R_upper="@ + rate@ + " Gpc^-3/yr, N_upper="@ + count@
        + ", VT_eff="@ + vt@ + " Gpc^3 yr)"@
}

/// `line` stands for an upper limit, with its numbers written by the given functions.
pub open spec fn is_limit_line<
    S: Fn(Double) -> String,
    X: Fn(Double, usize) -> String,
    H: Fn(Double) -> String,
>(scientific: &S, fixed: &X, percent: &H, limit: PyRateUpperLimit, line: Seq<char>) -> bool {
    exists|level: String, rate: String, count: String, vt: String|
        call_ensures(*percent, (limit.confidence_level,), level) && call_ensures(
            *scientific,
            (limit.rate_upper,),
            rate,
        ) && call_ensures(*fixed, (limit.n_upper, 3usize), count) && call_ensures(
            *scientific,
            (limit.effective_vt_gpc3_yr,),
            vt,
        ) && line == #[trigger] limit_line(limit, level, rate, count, vt)
}

impl PyRateUpperLimit {
    /// One line on the limit. `percent` writes a fraction as a whole number of hundredths.
    pub fn __repr__<
        S: Fn(Double) -> String,
        X: Fn(Double, usize) -> String,
        H: Fn(Double) -> String,
    >(&self, scientific: &S, fixed: &X, percent: &H) -> (res: String)
        requires
            forall|x: Double| call_requires(*scientific, (x,)),
            forall|x: Double, decimals: usize| call_requires(*fixed, (x, decimals)),
            forall|x: Double| call_requires(*percent, (x,)),
        ensures
            is_limit_line(scientific, fixed, percent, *self, res@),
    {
        let level = percent(self.confidence_level);
        let rate = scientific(self.rate_upper);
        let count = fixed(self.n_upper, 3);
        let vt = scientific(self.effective_vt_gpc3_yr);
        let mut res = String::from_str("RateUpperLimit(type=");
        res.append(self.transient_type.as_str());
        res.append(", N=");
        res.append(decimal_text(self.n_observed).as_str());
        res.append(", CL=");
        res.append(level.as_str());
        res.append("%, R_upper=");
        res.append(rate.as_str());
        res.append(" Gpc^-3/yr, N_upper=");
        res.append(count.as_str());
        res.append(", VT_eff=");
        res.append(vt.as_str());
        res.append(" Gpc^3 yr)");
        assert(res@ == limit_line(*self, level, rate, count, vt));
        res
    }
}

/// The bands of a source's measured magnitudes.
pub open spec fn source_bands(source: PyDetectedSource) -> Seq<Seq<char>> {
    Seq::new(source.photometry@.len(), |i: int| source.photometry@[i].band@)
}

/// The line that stands for a source; `names` lists its bands, and `z` is the text of its redshift.
pub open spec fn source_line(
    source: PyDetectedSource,
    z: String,
    names: Seq<Seq<char>>,
) -> Seq<char> {
    "DetectedSource(type="@ + source.transient_type@ + ", z="@ + z@ + ", n_obs="@ + decimal(
        source.photometry@.len() as int,
    ) + ", bands="@ + comma_joined(names) + ")"@
}

/// `line` stands for a source: its bands are listed in order, each once.
pub open spec fn is_source_line<X: Fn(Double, usize) -> String>(
    fixed: &X,
    source: PyDetectedSource,
    line: Seq<char>,
) -> bool {
    exists|z: String, names: Seq<Seq<char>>|
        call_ensures(*fixed, (source.z, 3usize), z) && is_sorted_unique(source_bands(source), names)
            && line == #[trigger] source_line(source, z, names)
}

impl PyDetectedSource {
    /// One line on the source. The bands of its measured magnitudes are listed in order, each once.
    pub fn __repr__<X: Fn(Double, usize) -> String>(&self, fixed: &X) -> (res: String)
        requires
            forall|x: Double, decimals: usize| call_requires(*fixed, (x, decimals)),
        ensures
            is_source_line(fixed, *self, res@),
    {
        let mut bands: Vec<String> = Vec::new();
        for i in 0..self.photometry.len()
            invariant
                bands@.len() == i,
                forall|j: int| 0 <= j < i ==> #[trigger] bands@[j] == self.photometry@[j].band,
        {
            bands.push(self.photometry[i].band.clone());
        }
        assert(texts(bands@) =~= source_bands(*self));
        let names = sorted_unique(&bands);
        let z = fixed(self.z, 3);
        let mut res = String::from_str("DetectedSource(type=");
        res.append(self.transient_type.as_str());
        res.append(", z=");
        res.append(z.as_str());
        res.append(", n_obs=");
        res.append(decimal_text(self.photometry.len() as u64).as_str());
        res.append(", bands=");
        res.append(join_with_commas(&names).as_str());
        res.append(")");
        assert(res@ == source_line(*self, z, texts(names@)));
        res
    }
}

/// The report names undetected sources: there are some.
pub open spec fn shows_undetected(result: PySimulationResult) -> bool {
    result.n_undetected > 0 || result.undetected_sources@.len() > 0
}

/// The line that stands for a result; `efficiency` is the text of its efficiency.
pub open spec fn result_line(result: PySimulationResult, efficiency: String) -> Seq<char> {
    let counts = "SimulationResult(n_simulated="@ + decimal(result.n_simulated as int)
        + ", n_detected="@ + decimal(result.n_detected as int);
    let undetected = if shows_undetected(result) {
        ", n_undetected="@ + decimal(result.n_undetected as int)
    } else {
        Seq::empty()
    };
    counts + undetected + ", efficiency="@ + efficiency@ + ", sources="@ + decimal(
        result.detected_sources@.len() as int,
    ) + ")"@
}

/// The head of the report of several lines.
pub open spec fn result_head(result: PySimulationResult, efficiency: String) -> Seq<char> {
    let counts = "SimulationResult\n  n_simulated: "@ + decimal(result.n_simulated as int)
        + "\n  n_detected:  "@ + decimal(result.n_detected as int);
    let undetected = if shows_undetected(result) {
        "\n  n_undetected: "@ + decimal(result.n_undetected as int)
    } else {
        Seq::empty()
    };
    counts + undetected + "\n  efficiency:  "@ + efficiency@ + "\n  sources:     "@ + decimal(
        result.detected_sources@.len() as int,
    ) + "\n"@
}

/// The line on one rate in the report of several lines.
pub open spec fn rate_entry(summary: PyRateSummary, shown: RateTexts) -> Seq<char> {
    "    "@ + summary.transient_type@ + " : rate="@ + shown.rate@ + " Gpc^-3/yr, eff="@
        + shown.efficiency@ + ", det/yr="@ + shown.per_year@ + ", det_total="@ + shown.total@
        + " (T="@ + shown.duration@ + " yr, omega="@ + shown.omega@ + " sr)\n"@
}

/// The lines on the first `n` rates in the report of several lines.
pub open spec fn rate_entries(
    summaries: Seq<PyRateSummary>,
    shown: Seq<RateTexts>,
    n: int,
) -> Seq<char>
    decreases n,
{
    if n <= 0 {
        Seq::empty()
    } else {
        rate_entries(summaries, shown, n - 1) + rate_entry(summaries[n - 1], shown[n - 1])
    }
}

/// The report of several lines.
pub open spec fn result_report(
    result: PySimulationResult,
    efficiency: String,
    shown: Seq<RateTexts>,
) -> Seq<char> {
    let head = result_head(result, efficiency);
    if result.rate_summaries@.len() == 0 {
        head
    } else {
        head + "  rate_summaries:\n"@ + rate_entries(
            result.rate_summaries@,
            shown,
            result.rate_summaries@.len() as int,
        )
    }
}

/// `line` stands for a result. `ratio` writes a quotient of whole numbers with four decimals.
pub open spec fn is_result_line<Y: Fn(usize, usize) -> String>(
    ratio: &Y,
    result: PySimulationResult,
    line: Seq<char>,
) -> bool {
    exists|efficiency: String|
        call_ensures(*ratio, (result.n_detected, at_least_one(result.n_simulated)), efficiency)
            && line == #[trigger] result_line(result, efficiency)
}

/// `shown` are the texts of the summaries.
pub open spec fn are_all_texts<S: Fn(Double) -> String, X: Fn(Double, usize) -> String>(
    scientific: &S,
    fixed: &X,
    summaries: Seq<PyRateSummary>,
    shown: Seq<RateTexts>,
) -> bool {
    &&& shown.len() == summaries.len()
    &&& forall|i: int|
        0 <= i < shown.len() ==> are_rate_texts(scientific, fixed, summaries[i], #[trigger] shown[i])
}

/// `report` is the report of several lines on a result.
pub open spec fn is_report<
    Y: Fn(usize, usize) -> String,
    S: Fn(Double) -> String,
    X: Fn(Double, usize) -> String,
>(ratio: &Y, scientific: &S, fixed: &X, result: PySimulationResult, report: Seq<char>) -> bool {
    exists|efficiency: String, shown: Seq<RateTexts>|
        call_ensures(*ratio, (result.n_detected, at_least_one(result.n_simulated)), efficiency)
            && are_all_texts(scientific, fixed, result.rate_summaries@, shown)
            && report == #[trigger] result_report(result, efficiency, shown)
}

/// `shown` is the result of a run over a survey of the given duration.
pub open spec fn is_shown_result(
    result: PipelineResult,
    duration_years: Double,
    shown: PySimulationResult,
) -> bool {
    &&& shown.n_simulated == result.n_simulated
    &&& shown.n_detected == result.n_detected
    &&& shown.n_undetected == result.n_undetected
    &&& shown.rate_summaries@.len() == result.rate_summaries@.len()
    &&& forall|i: int|
        0 <= i < shown.rate_summaries@.len() ==> is_shown(
            result.rate_summaries@[i],
            extras_at(result.per_type_extras@, i),
            duration_years,
            #[trigger] shown.rate_summaries@[i],
        )
    &&& shown.detected_sources@ == result.detected_sources@
    &&& shown.undetected_sources@ == result.undetected_sources@
}

/// `found` is a copy of the source at `index`, or a refusal if there is none.
pub open spec fn is_source_at(
    sources: Seq<PyDetectedSource>,
    index: usize,
    found: Result<PyDetectedSource, PipelineError>,
) -> bool {
    match found {
        Ok(source) => index < sources.len() && source@ == sources[index as int]@,
        Err(error) => index >= sources.len() && error == PipelineError::SourceIndexOutOfRange,
    }
}

/// The copies say what the sources say.
pub open spec fn are_copies(
    sources: Seq<PyDetectedSource>,
    copies: Seq<PyDetectedSource>,
) -> bool {
    source_views(copies) == source_views(sources)
}

impl PySimulationResult {
    /// The result of a run over a survey of the given duration.
    pub fn from_pipeline(result: PipelineResult, survey_duration_years: Double) -> (res:
        PySimulationResult)
        ensures
            is_shown_result(result, survey_duration_years, res),
    {
        let mut rate_summaries: Vec<PyRateSummary> = Vec::new();
        for i in 0..result.rate_summaries.len()
            invariant
                rate_summaries@.len() == i,
                forall|j: int|
                    0 <= j < i ==> is_shown(
                        result.rate_summaries@[j],
                        extras_at(result.per_type_extras@, j),
                        survey_duration_years,
                        #[trigger] rate_summaries@[j],
                    ),
        {
            let summary = &result.rate_summaries[i];
            let extras = if i < result.per_type_extras.len() {
                result.per_type_extras[i]
            } else {
                TypeExtras { n_simulated: 0, n_detected: 0, effective_vt_gpc3_yr: Double { bits: 0 } }
            };
            rate_summaries.push(
                PyRateSummary {
                    transient_type: summary.transient_type.clone(),
                    volumetric_rate: summary.volumetric_rate,
                    detections_per_year: summary.detections_per_year,
                    detections_total: summary.detections_total,
                    overall_efficiency: summary.overall_efficiency,
                    n_simulated: extras.n_simulated,
                    n_detected: extras.n_detected,
                    z_max: summary.z_max,
                    survey_omega_sr: summary.survey_omega_sr,
                    survey_duration_years,
                    effective_vt_gpc3_yr: extras.effective_vt_gpc3_yr,
                },
            );
        }
        PySimulationResult {
            n_simulated: result.n_simulated,
            n_detected: result.n_detected,
            n_undetected: result.n_undetected,
            rate_summaries,
            detected_sources: result.detected_sources,
            undetected_sources: result.undetected_sources,
        }
    }

    /// The number of detected sources with photometry.
    pub fn n_sources(&self) -> (res: usize)
        ensures
            res == self.detected_sources@.len(),
    {
        self.detected_sources.len()
    }

    /// A copy of a detected source.
    pub fn get_source(&self, index: usize) -> (res: Result<PyDetectedSource, PipelineError>)
        ensures
            is_source_at(self.detected_sources@, index, res),
            match res {
                Ok(source) => index < self.detected_sources@.len() && source@
                    == self.detected_sources@[index as int]@,
                Err(error) => index >= self.detected_sources@.len()
                    && error == PipelineError::SourceIndexOutOfRange,
            },
    {
        if index < self.detected_sources.len() {
            Ok(self.detected_sources[index].clone())
        } else {
            Err(PipelineError::SourceIndexOutOfRange)
        }
    }

    /// Copies of all detected sources.
    pub fn sources(&self) -> (res: Vec<PyDetectedSource>)
        ensures
            are_copies(self.detected_sources@, res@),
            source_views(res@) == source_views(self.detected_sources@),
    {
        let mut res: Vec<PyDetectedSource> = Vec::new();
        for i in 0..self.detected_sources.len()
            invariant
                res@.len() == i,
                forall|j: int| 0 <= j < i ==> (#[trigger] res@[j])@ == self.detected_sources@[j]@,
        {
            res.push(self.detected_sources[i].clone());
        }
        assert(source_views(res@) =~= source_views(self.detected_sources@));
        res
    }

    /// The text of the efficiency.
    fn efficiency_text<Y: Fn(usize, usize) -> String>(&self, ratio: &Y) -> (text: String)
        requires
            forall|n: usize, d: usize| call_requires(*ratio, (n, d)),
        ensures
            call_ensures(*ratio, (self.n_detected, at_least_one(self.n_simulated)), text),
    {
        ratio(self.n_detected, divisor(self.n_simulated))
    }

    /// One line on the result. `ratio` writes a quotient of whole numbers with four decimals.
    pub fn __repr__<Y: Fn(usize, usize) -> String>(&self, ratio: &Y) -> (res: String)
        requires
            forall|n: usize, d: usize| call_requires(*ratio, (n, d)),
        ensures
            is_result_line(ratio, *self, res@),
    {
        let efficiency = self.efficiency_text(ratio);
        let mut res = String::from_str("SimulationResult(n_simulated=");
        res.append(decimal_text(self.n_simulated as u64).as_str());
        res.append(", n_detected=");
        res.append(decimal_text(self.n_detected as u64).as_str());
        let ghost counts = res@;
        if self.n_undetected > 0 || self.undetected_sources.len() > 0 {
            res.append(", n_undetected=");
            res.append(decimal_text(self.n_undetected as u64).as_str());
            assert(res@ =~= counts + (", n_undetected="@ + decimal(self.n_undetected as int)));
        } else {
            assert(res@ =~= counts + Seq::<char>::empty());
        }
        res.append(", efficiency=");
        res.append(efficiency.as_str());
        res.append(", sources=");
        res.append(decimal_text(self.detected_sources.len() as u64).as_str());
        res.append(")");
        assert(res@ == result_line(*self, efficiency));
        res
    }

    /// The report of several lines.
    pub fn __str__<
        Y: Fn(usize, usize) -> String,
        S: Fn(Double) -> String,
        X: Fn(Double, usize) -> String,
    >(&self, ratio: &Y, scientific: &S, fixed: &X) -> (res: String)
        requires
            forall|n: usize, d: usize| call_requires(*ratio, (n, d)),
            forall|x: Double| call_requires(*scientific, (x,)),
            forall|x: Double, decimals: usize| call_requires(*fixed, (x, decimals)),
        ensures
            is_report(ratio, scientific, fixed, *self, res@),
    {
        let efficiency = self.efficiency_text(ratio);
        let mut shown: Vec<RateTexts> = Vec::new();
        for i in 0..self.rate_summaries.len()
            invariant
                forall|x: Double| call_requires(*scientific, (x,)),
                forall|x: Double, decimals: usize| call_requires(*fixed, (x, decimals)),
                shown@.len() == i,
                forall|j: int|
                    0 <= j < i ==> are_rate_texts(
                        scientific,
                        fixed,
                        self.rate_summaries@[j],
                        #[trigger] shown@[j],
                    ),
        {
            shown.push(self.rate_summaries[i].rate_texts(scientific, fixed));
        }
        let mut res = String::from_str("SimulationResult\n  n_simulated: ");
        res.append(decimal_text(self.n_simulated as u64).as_str());
        res.append("\n  n_detected:  ");
        res.append(decimal_text(self.n_detected as u64).as_str());
        let ghost counts = res@;
        if self.n_undetected > 0 || self.undetected_sources.len() > 0 {
            res.append("\n  n_undetected: ");
            res.append(decimal_text(self.n_undetected as u64).as_str());
            assert(res@ =~= counts + ("\n  n_undetected: "@ + decimal(self.n_undetected as int)));
        } else {
            assert(res@ =~= counts + Seq::<char>::empty());
        }
        res.append("\n  efficiency:  ");
        res.append(efficiency.as_str());
        res.append("\n  sources:     ");
        res.append(decimal_text(self.detected_sources.len() as u64).as_str());
        res.append("\n");
        if self.rate_summaries.len() > 0 {
            res.append("  rate_summaries:\n");
            let ghost head = res@;
            assert(head =~= head + rate_entries(self.rate_summaries@, shown@, 0));
            for i in 0..self.rate_summaries.len()
                invariant
                    shown@.len() == self.rate_summaries@.len(),
                    res@ == head + rate_entries(self.rate_summaries@, shown@, i as int),
            {
                let entry = entry_text(&self.rate_summaries[i], &shown[i]);
                let ghost before = res@;
                res.append(entry.as_str());
                assert(before + entry@ =~= head + rate_entries(
                    self.rate_summaries@,
                    shown@,
                    i + 1,
                ));
            }
        }
        assert(res@ == result_report(*self, efficiency, shown@));
        res
    }
}

/// Writes the line on one rate in the report of several lines.
fn entry_text(summary: &PyRateSummary, shown: &RateTexts) -> (res: String)
    ensures
        res@ == rate_entry(*summary, *shown),
{
    let mut res = String::from_str("    ");
    res.append(summary.transient_type.as_str());
    res.append(" : rate=");
    res.append(shown.rate.as_str());
    res.append(" Gpc^-3/yr, eff=");
    res.append(shown.efficiency.as_str());
    res.append(", det/yr=");
    res.append(shown.per_year.as_str());
    res.append(", det_total=");
    res.append(shown.total.as_str());
    res.append(" (T=");
    res.append(shown.duration.as_str());
    res.append(" yr, omega=");
    res.append(shown.omega.as_str());
    res.append(" sr)\n");
    res
}

} // verus!
