//! What reports and upper limits say.
use vstd::prelude::*;

use crate::dispatch::{
    kind_at, message_of, PipelineError, PopulationKind, KILONOVA_KINDS, POPULATION_KINDS,
};
use crate::double::{Double, INFINITE_MAGNITUDE};
use crate::photometry::PhotometryPoint;
use crate::pipeline::{at_least_one, PipelineResult};
use crate::results::{
    are_all_texts, are_rate_texts, is_report, is_result_line, is_shown, is_shown_result,
    is_source_line, is_upper_limit, limit_line, rate_entries, rate_entry, rate_line, result_head,
    result_line, result_report, source_bands, source_line, PyRateSummary, PyRateUpperLimit,
    PySimulationResult, RateTexts,
};
use crate::selection_laws::{is_positive, lemma_positive};
use crate::sources::PyDetectedSource;
use crate::text::{comma_joined, decimal, is_sorted_unique, text_before};
use crate::text_laws::{comes_first, law_text_order};
use crate::too::{too_line, PyTooSimulationResult};

verus! {

/// A shown result repeats the counts and the sources of the run, and shows each rate with its own
/// counts and the duration of the survey, field by field.
pub proof fn law_shown_field_by_field(
    result: PipelineResult,
    duration_years: Double,
    shown: PySimulationResult,
    i: int,
)
    requires
        result.wf(),
        is_shown_result(result, duration_years, shown),
        0 <= i < result.rate_summaries@.len(),
    ensures
        shown.n_simulated == result.n_simulated,
        shown.n_detected == result.n_detected,
        shown.n_undetected == result.n_undetected,
        shown.detected_sources@ == result.detected_sources@,
        shown.undetected_sources@ == result.undetected_sources@,
        shown.rate_summaries@.len() == result.rate_summaries@.len(),
        ({
            let (rate, extras) = (result.rate_summaries@[i], result.per_type_extras@[i]);
            let one = shown.rate_summaries@[i];
            &&& one.transient_type@ == rate.transient_type@
            &&& one.volumetric_rate == rate.volumetric_rate
            &&& one.detections_per_year == rate.detections_per_year
            &&& one.detections_total == rate.detections_total
            &&& one.overall_efficiency == rate.overall_efficiency
            &&& one.z_max == rate.z_max
            &&& one.survey_omega_sr == rate.survey_omega_sr
            &&& one.n_simulated == extras.n_simulated
            &&& one.n_detected == extras.n_detected
            &&& one.effective_vt_gpc3_yr == extras.effective_vt_gpc3_yr
            &&& one.survey_duration_years == duration_years
        }),
{
    assert(is_shown(
        result.rate_summaries@[i],
        result.per_type_extras@[i],
        duration_years,
        shown.rate_summaries@[i],
    ));
}

/// The upper limit on a rate is the limit on the count divided by the volume-time if that is
/// positive, and infinite otherwise; it names what it was made from.
pub proof fn law_upper_limit<Q: Fn(u64, Double) -> Double, V: Fn(Double, Double) -> Double>(
    poisson: &Q,
    divide: &V,
    summary: PyRateSummary,
    confidence_level: Double,
    n_observed: u64,
    limit: PyRateUpperLimit,
)
    requires
        is_upper_limit(poisson, divide, summary, confidence_level, n_observed, limit),
    ensures
        call_ensures(*poisson, (n_observed, confidence_level), limit.n_upper),
        is_positive(summary.effective_vt_gpc3_yr) ==> call_ensures(
            *divide,
            (limit.n_upper, summary.effective_vt_gpc3_yr),
            limit.rate_upper,
        ),
        !is_positive(summary.effective_vt_gpc3_yr) ==> limit.rate_upper.bits == INFINITE_MAGNITUDE,
        limit.n_observed == n_observed,
        limit.confidence_level == confidence_level,
        limit.transient_type@ == summary.transient_type@,
        limit.effective_vt_gpc3_yr == summary.effective_vt_gpc3_yr,
        limit.survey_duration_years == summary.survey_duration_years,
        limit.survey_omega_sr == summary.survey_omega_sr,
{
    lemma_positive(summary.effective_vt_gpc3_yr);
}

/// One template makes the line of every result: its counts in decimal, those of undetected sources
/// if there are any, its efficiency, and the number of its sources, with fixed words between them.
pub open spec fn is_result_template(words: Seq<Seq<char>>) -> bool {
    &&& words.len() == 6
    &&& forall|result: PySimulationResult, efficiency: String| #[trigger]
        result_line(result, efficiency) == words[0] + decimal(result.n_simulated as int) + words[1]
            + decimal(result.n_detected as int) + (if result.n_undetected > 0
            || result.undetected_sources@.len() > 0 {
            words[2] + decimal(result.n_undetected as int)
        } else {
            Seq::empty()
        }) + words[3] + efficiency@ + words[4] + decimal(result.detected_sources@.len() as int)
            + words[5]
}

/// All results are written by one template.
pub proof fn law_result_template()
    ensures
        exists|words: Seq<Seq<char>>| is_result_template(words),
{
    let words = seq![
        "SimulationResult(n_simulated="@,
        ", n_detected="@,
        ", n_undetected="@,
        ", efficiency="@,
        ", sources="@,
        ")"@,
    ];
    assert(is_result_template(words));
}

/// One template makes the head of every report.
pub open spec fn is_head_template(words: Seq<Seq<char>>) -> bool {
    &&& words.len() == 6
    &&& forall|result: PySimulationResult, efficiency: String| #[trigger]
        result_head(result, efficiency) == words[0] + decimal(result.n_simulated as int) + words[1]
            + decimal(result.n_detected as int) + (if result.n_undetected > 0
            || result.undetected_sources@.len() > 0 {
            words[2] + decimal(result.n_undetected as int)
        } else {
            Seq::empty()
        }) + words[3] + efficiency@ + words[4] + decimal(result.detected_sources@.len() as int)
            + words[5]
}

/// All reports begin by one template.
pub proof fn law_head_template()
    ensures
        exists|words: Seq<Seq<char>>| is_head_template(words),
{
    let words = seq![
        "SimulationResult\n  n_simulated: "@,
        "\n  n_detected:  "@,
        "\n  n_undetected: "@,
        "\n  efficiency:  "@,
        "\n  sources:     "@,
        "\n"@,
    ];
    assert(is_head_template(words));
}

/// One template makes the line of every rate: its type, its rate, its counts in decimal, and its
/// other numbers in their order.
pub open spec fn is_rate_template(words: Seq<Seq<char>>) -> bool {
    &&& words.len() == 12
    &&& forall|summary: PyRateSummary, shown: RateTexts| #[trigger]
        rate_line(summary, shown) == words[0] + summary.transient_type@ + words[1] + shown.rate@
            + words[2] + decimal(summary.n_simulated as int) + words[3] + decimal(
            summary.n_detected as int,
        ) + words[4] + shown.efficiency@ + words[5] + shown.per_year@ + words[6] + shown.total@
            + words[7] + shown.z_max@ + words[8] + shown.omega@ + words[9] + shown.duration@
            + words[10] + shown.vt@ + words[11]
}

/// All rates are written by one template.
pub proof fn law_rate_template()
    ensures
        exists|words: Seq<Seq<char>>| is_rate_template(words),
{
    let words = seq![
        "RateSummary(type="@,
        ", rate="@,
        " Gpc^-3/yr, n_sim="@,
        ", n_det="@,
        ", eff="@,
        ", det/yr="@,
        ", det_total="@,
        ", z_max="@,
        ", omega_sr="@,
        ", T="@,
        " yr, VT_eff="@,
        " Gpc^3 yr)"@,
    ];
    assert(is_rate_template(words));
}

/// One template makes the entry of every rate in a report.
pub open spec fn is_entry_template(words: Seq<Seq<char>>) -> bool {
    &&& words.len() == 8
    &&& forall|summary: PyRateSummary, shown: RateTexts| #[trigger]
        rate_entry(summary, shown) == words[0] + summary.transient_type@ + words[1] + shown.rate@
            + words[2] + shown.efficiency@ + words[3] + shown.per_year@ + words[4] + shown.total@
            + words[5] + shown.duration@ + words[6] + shown.omega@ + words[7]
}

/// All entries are written by one template.
pub proof fn law_entry_template()
    ensures
        exists|words: Seq<Seq<char>>| is_entry_template(words),
{
    let words = seq![
        "    "@,
        " : rate="@,
        " Gpc^-3/yr, eff="@,
        ", det/yr="@,
        ", det_total="@,
        " (T="@,
        " yr, omega="@,
        " sr)\n"@,
    ];
    assert(is_entry_template(words));
}

/// A report is its head and, if there are rates, a title and the entry of every rate in their order.
pub proof fn law_report_lists_every_rate(
    result: PySimulationResult,
    efficiency: String,
    shown: Seq<RateTexts>,
)
    requires
        shown.len() == result.rate_summaries@.len(),
    ensures
        result.rate_summaries@.len() == 0 ==> result_report(result, efficiency, shown)
            == result_head(result, efficiency),
        result.rate_summaries@.len() > 0 ==> exists|entries: Seq<Seq<char>>|
            result_report(result, efficiency, shown) == result_head(result, efficiency)
                + "  rate_summaries:\n"@ + #[trigger] entries.flatten() && entries.len()
                == shown.len() && forall|i: int|
                0 <= i < shown.len() ==> #[trigger] entries[i] == rate_entry(
                    result.rate_summaries@[i],
                    shown[i],
                ),
{
    if result.rate_summaries@.len() > 0 {
        let n = shown.len() as int;
        let entries = Seq::new(
            shown.len(),
            |i: int| rate_entry(result.rate_summaries@[i], shown[i]),
        );
        lemma_entries(result.rate_summaries@, shown, n);
        assert(entries.take(n) =~= entries);
        assert(result_report(result, efficiency, shown) =~= result_head(result, efficiency)
            + "  rate_summaries:\n"@ + entries.flatten());
    }
}

proof fn lemma_entries(summaries: Seq<PyRateSummary>, shown: Seq<RateTexts>, n: int)
    requires
        0 <= n <= shown.len(),
    ensures
        rate_entries(summaries, shown, n) == Seq::new(
            shown.len(),
            |i: int| rate_entry(summaries[i], shown[i]),
        ).take(n).flatten(),
    decreases n,
{
    let all = Seq::new(shown.len(), |i: int| rate_entry(summaries[i], shown[i]));
    if n == 0 {
        assert(all.take(0) =~= Seq::empty());
        assert(all.take(0).flatten() =~= Seq::empty());
    } else {
        lemma_entries(summaries, shown, n - 1);
        let front = all.take(n);
        assert(front.drop_last() =~= all.take(n - 1));
        front.lemma_flatten_and_flatten_alt_are_equivalent();
        front.drop_last().lemma_flatten_and_flatten_alt_are_equivalent();
        assert(front.flatten_alt() == front.drop_last().flatten_alt() + front.last());
    }
}

/// One template makes the line of every upper limit.
pub open spec fn is_limit_template(words: Seq<Seq<char>>) -> bool {
    &&& words.len() == 7
    &&& forall|
        limit: PyRateUpperLimit,
        level: String,
        rate: String,
        count: String,
        vt: String,
    | #[trigger]
        limit_line(limit, level, rate, count, vt) == words[0] + limit.transient_type@ + words[1]
            + decimal(limit.n_observed as int) + words[2] + level@ + words[3] + rate@ + words[4]
            + count@ + words[5] + vt@ + words[6]
}

/// All upper limits are written by one template.
pub proof fn law_limit_template()
    ensures
        exists|words: Seq<Seq<char>>| is_limit_template(words),
{
    let words = seq![
        "RateUpperLimit(type="@,
        ", N="@,
        ", CL="@,
        "%, R_upper="@,
        " Gpc^-3/yr, N_upper="@,
        ", VT_eff="@,
        " Gpc^3 yr)"@,
    ];
    assert(is_limit_template(words));
}

/// One template makes the line of every source: its type, its redshift, the number of its measured
/// magnitudes, and its bands.
pub open spec fn is_source_template(words: Seq<Seq<char>>) -> bool {
    &&& words.len() == 5
    &&& forall|source: PyDetectedSource, z: String, names: Seq<Seq<char>>| #[trigger]
        source_line(source, z, names) == words[0] + source.transient_type@ + words[1] + z@
            + words[2] + decimal(source.photometry@.len() as int) + words[3] + comma_joined(names)
            + words[4]
}

/// All sources are written by one template.
pub proof fn law_source_template()
    ensures
        exists|words: Seq<Seq<char>>| is_source_template(words),
{
    let words = seq!["DetectedSource(type="@, ", z="@, ", n_obs="@, ", bands="@, ")"@];
    assert(is_source_template(words));
}

/// One template makes the line of every simulation that follows gravitational waves.
pub open spec fn is_too_template(words: Seq<Seq<char>>) -> bool {
    &&& words.len() == 5
    &&& forall|result: PyTooSimulationResult, efficiency: String| #[trigger]
        too_line(result, efficiency) == words[0] + result.strategy_name@ + words[1] + decimal(
            result.n_events as int,
        ) + words[2] + decimal(result.n_detected as int) + words[3] + efficiency@ + words[4]
}

/// All these simulations are written by one template.
pub proof fn law_too_template()
    ensures
        exists|words: Seq<Seq<char>>| is_too_template(words),
{
    let words = seq![
        "TooSimulationResult(strategy='"@,
        "', events="@,
        ", detected="@,
        ", efficiency="@,
        ")"@,
    ];
    assert(is_too_template(words));
}

/// The place of a kind in the order in which objects are tried.
pub open spec fn place_of(kind: PopulationKind) -> int {
    match kind {
        PopulationKind::Kilonova => 0,
        PopulationKind::FixedMetzgerKilonova => 1,
        PopulationKind::Bu2026Kilonova => 2,
        PopulationKind::FixedBu2026Kilonova => 3,
        PopulationKind::SupernovaIa => 4,
        PopulationKind::SupernovaII => 5,
        PopulationKind::Tde => 6,
        PopulationKind::Fbot => 7,
        PopulationKind::Grb => 8,
        PopulationKind::OnAxisGrb => 9,
        PopulationKind::OffAxisGrb => 10,
    }
}

/// A kind that follows gravitational waves.
pub open spec fn is_kilonova(kind: PopulationKind) -> bool {
    kind is Kilonova || kind is FixedMetzgerKilonova || kind is Bu2026Kilonova
        || kind is FixedBu2026Kilonova
}

/// Every kind has its own place and every place its own kind; the kilonovae are the first.
pub proof fn law_kinds_and_places(kind: PopulationKind, place: int)
    ensures
        0 <= place_of(kind) < POPULATION_KINDS,
        kind_at(place_of(kind)) == kind,
        0 <= place < POPULATION_KINDS ==> place_of(kind_at(place)) == place,
        0 <= place < POPULATION_KINDS ==> (place < KILONOVA_KINDS <==> is_kilonova(kind_at(place))),
{
}

/// The refusal of a strategy tells its name: the text around it is always the same.
pub open spec fn is_strategy_template(before: Seq<char>, after: Seq<char>) -> bool {
    forall|error: PipelineError|
        error is UnknownStrategy ==> #[trigger] message_of(error) == before + error->name@ + after
}

/// All refusals of strategies are written by one template.
pub proof fn law_strategy_template()
    ensures
        exists|before: Seq<char>, after: Seq<char>| is_strategy_template(before, after),
{
    assert(is_strategy_template(
        "Unknown ToO strategy '"@,
        "'. Available: rubin_gold, rubin_silver, ztf, ultrasat, uvex"@,
    ));
}

/// The numbers of a rate are written from their own fields, rates, expected detections, solid angle
/// and volume-time with an exponent, the others without.
pub proof fn law_texts_of_rate<S: Fn(Double) -> String, X: Fn(Double, usize) -> String>(
    scientific: &S,
    fixed: &X,
    summary: PyRateSummary,
    shown: RateTexts,
)
    requires
        are_rate_texts(scientific, fixed, summary, shown),
    ensures
        call_ensures(*scientific, (summary.volumetric_rate,), shown.rate),
        call_ensures(*scientific, (summary.detections_per_year,), shown.per_year),
        call_ensures(*scientific, (summary.detections_total,), shown.total),
        call_ensures(*scientific, (summary.survey_omega_sr,), shown.omega),
        call_ensures(*scientific, (summary.effective_vt_gpc3_yr,), shown.vt),
        call_ensures(*fixed, (summary.overall_efficiency, 4usize), shown.efficiency),
        call_ensures(*fixed, (summary.z_max, 2usize), shown.z_max),
        call_ensures(*fixed, (summary.survey_duration_years, 2usize), shown.duration),
{
}

/// The efficiency in the line of a result is that of its detections among the simulated transients,
/// or among one if there are none.
pub proof fn law_efficiency_in_line<Y: Fn(usize, usize) -> String>(
    ratio: &Y,
    result: PySimulationResult,
    line: Seq<char>,
)
    requires
        is_result_line(ratio, result, line),
    ensures
        exists|of: usize, efficiency: String|
            (result.n_simulated > 0 ==> of == result.n_simulated) && (result.n_simulated == 0
                ==> of == 1) && #[trigger] call_ensures(
                *ratio,
                (result.n_detected, of),
                efficiency,
            ) && line == result_line(result, efficiency),
{
    let efficiency = choose|efficiency: String|
        call_ensures(*ratio, (result.n_detected, at_least_one(result.n_simulated)), efficiency)
            && line == #[trigger] result_line(result, efficiency);
    let of = at_least_one(result.n_simulated);
    assert(call_ensures(*ratio, (result.n_detected, of), efficiency));
}

/// The report of a result has the same efficiency and the texts of all its rates.
pub proof fn law_efficiency_in_report<
    Y: Fn(usize, usize) -> String,
    S: Fn(Double) -> String,
    X: Fn(Double, usize) -> String,
>(ratio: &Y, scientific: &S, fixed: &X, result: PySimulationResult, report: Seq<char>)
    requires
        is_report(ratio, scientific, fixed, result, report),
    ensures
        exists|of: usize, efficiency: String, shown: Seq<RateTexts>|
            (result.n_simulated > 0 ==> of == result.n_simulated) && (result.n_simulated == 0
                ==> of == 1) && #[trigger] call_ensures(
                *ratio,
                (result.n_detected, of),
                efficiency,
            ) && shown.len() == result.rate_summaries@.len() && (forall|i: int|
                0 <= i < shown.len() ==> are_rate_texts(
                    scientific,
                    fixed,
                    result.rate_summaries@[i],
                    #[trigger] shown[i],
                )) && report == #[trigger] result_report(result, efficiency, shown),
{
    let (efficiency, shown) = choose|efficiency: String, shown: Seq<RateTexts>|
        call_ensures(*ratio, (result.n_detected, at_least_one(result.n_simulated)), efficiency)
            && are_all_texts(scientific, fixed, result.rate_summaries@, shown) && report
            == #[trigger] result_report(result, efficiency, shown);
    let of = at_least_one(result.n_simulated);
    assert(call_ensures(*ratio, (result.n_detected, of), efficiency));
    assert(report == result_report(result, efficiency, shown));
}

/// The line of a source has its redshift and the bands of its measured magnitudes: every one is
/// listed, and only once, with the one that comes first in front.
pub proof fn law_bands_in_line<X: Fn(Double, usize) -> String>(
    fixed: &X,
    source: PyDetectedSource,
    line: Seq<char>,
)
    requires
        is_source_line(fixed, source, line),
    ensures
        exists|z: String, names: Seq<Seq<char>>|
            call_ensures(*fixed, (source.z, 3usize), z) && are_listed_once(
                source.photometry@,
                names,
            ) && line == #[trigger] source_line(source, z, names),
{
    let (z, names) = choose|z: String, names: Seq<Seq<char>>|
        call_ensures(*fixed, (source.z, 3usize), z) && is_sorted_unique(source_bands(source), names)
            && line == #[trigger] source_line(source, z, names);
    let points = source.photometry@;
    let all = source_bands(source);
    assert forall|i: int| 0 <= i < points.len() implies names.contains(
        (#[trigger] points[i]).band@,
    ) by {
        assert(all[i] == points[i].band@);
        assert(all.contains(points[i].band@));
    }
    assert forall|k: int| 0 <= k < names.len() implies is_band_of(
        points,
        #[trigger] names[k],
    ) by {
        assert(names.contains(names[k]));
        assert(all.contains(names[k]));
        let i = choose|i: int| 0 <= i < all.len() && all[i] == names[k];
        assert(points[i].band@ == names[k]);
    }
    assert forall|k: int, l: int| 0 <= k < l < names.len() implies comes_first(
        #[trigger] names[k],
        #[trigger] names[l],
    ) by {
        law_text_order(names[k], names[l]);
        assert(text_before(names[k], names[l]));
    }
}

/// Some magnitude was measured in the band.
pub open spec fn is_band_of(points: Seq<PhotometryPoint>, name: Seq<char>) -> bool {
    exists|i: int| 0 <= i < points.len() && (#[trigger] points[i]).band@ == name
}

/// The names are the bands of the measured magnitudes, in order and each once.
pub open spec fn are_listed_once(points: Seq<PhotometryPoint>, names: Seq<Seq<char>>) -> bool {
    &&& forall|i: int|
        0 <= i < points.len() ==> names.contains((#[trigger] points[i]).band@)
    &&& forall|k: int|
        0 <= k < names.len() ==> is_band_of(points, #[trigger] names[k])
    &&& forall|k: int, l: int|
        0 <= k < l < names.len() ==> comes_first(#[trigger] names[k], #[trigger] names[l])
}

} // verus!
