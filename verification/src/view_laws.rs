//! Views say what the values say, field by field and place by place.
use vstd::prelude::*;

use crate::binning::member_times;
use crate::matching::Sighting;
use crate::measurement::Measured;
use crate::photometry::{
    limit_views, point_views, LimitView, Photometry, PhotometryPoint, PointView, UpperLimit,
};
use crate::pipeline::RateSummary;
use crate::sources::{
    are_limit_columns, are_point_columns, param_views, source_views, LimitColumns, Param,
    PhotometryColumns, PopulationInput, PyDetectedSource, TransientInstance,
};
use crate::stacking::{member_depths, value_times, BinSummary, StackedSeries, StackedValues};
use crate::survey::{
    bands, observations, times, LightcurveEvaluation, ObservationView, SurveyObservation,
};
use crate::text::texts;

verus! {

/// The view of an exposure repeats its fields.
pub proof fn law_exposure_view(one: SurveyObservation)
    ensures
        one@.obs_id == one.obs_id,
        one@.ra == one.ra,
        one@.dec == one.dec,
        one@.mjd == one.mjd,
        one@.band == one.band@,
        one@.five_sigma_depth == one.five_sigma_depth,
        one@.seeing_fwhm == one.seeing_fwhm,
        one@.exposure_time == one.exposure_time,
        one@.airmass == one.airmass,
        one@.sky_brightness == one.sky_brightness,
        one@.night == one.night,
{
}

/// The views of exposures, their times and their bands are there for each in its place.
pub proof fn law_exposure_lists(list: Seq<SurveyObservation>, i: int)
    requires
        0 <= i < list.len(),
    ensures
        observations(list).len() == list.len(),
        times(observations(list)).len() == list.len(),
        bands(observations(list)).len() == list.len(),
        observations(list)[i] == list[i]@,
        times(observations(list))[i] == list[i].mjd,
        bands(observations(list))[i] == list[i].band@,
{
}

/// The times and depths of some exposures are there for each in its place.
pub proof fn law_member_lists(list: Seq<ObservationView>, members: Seq<usize>, i: int)
    requires
        0 <= i < members.len(),
    ensures
        member_times(list, members).len() == members.len(),
        member_depths(list, members).len() == members.len(),
        member_times(list, members)[i] == list[members[i] as int].mjd,
        member_depths(list, members)[i] == list[members[i] as int].five_sigma_depth,
{
}

/// The views of measured magnitudes and upper limits repeat their fields, for each in its place.
pub proof fn law_photometry_views(
    points: Seq<PhotometryPoint>,
    limits: Seq<UpperLimit>,
    photometry: Photometry,
    i: int,
    j: int,
)
    requires
        photometry.points@ == points,
        photometry.limits@ == limits,
        0 <= i < points.len(),
        0 <= j < limits.len(),
    ensures
        photometry@.points == point_views(points),
        photometry@.limits == limit_views(limits),
        point_views(points).len() == points.len(),
        limit_views(limits).len() == limits.len(),
        point_views(points)[i].mjd == points[i].mjd,
        point_views(points)[i].mag == points[i].mag,
        point_views(points)[i].mag_err == points[i].mag_err,
        point_views(points)[i].band == points[i].band@,
        limit_views(limits)[j].mjd == limits[j].mjd,
        limit_views(limits)[j].depth == limits[j].depth,
        limit_views(limits)[j].band == limits[j].band@,
{
}

/// The view of a source repeats its fields.
pub proof fn law_source_view(one: PyDetectedSource)
    ensures
        one@.z == one.z,
        one@.peak_abs_mag == one.peak_abs_mag,
        one@.t_exp == one.t_exp,
        one@.transient_type == one.transient_type@,
        one@.photometry == point_views(one.photometry@),
        one@.non_detections == limit_views(one.non_detections@),
        one@.true_params == param_views(one.true_params@),
        one@.photometry.len() == one.photometry@.len(),
        one@.non_detections.len() == one.non_detections@.len(),
{
}

/// The views of sources and of parameters are there for each in its place.
pub proof fn law_source_lists(sources: Seq<PyDetectedSource>, params: Seq<Param>, i: int, j: int)
    requires
        0 <= i < sources.len(),
        0 <= j < params.len(),
    ensures
        source_views(sources).len() == sources.len(),
        source_views(sources)[i] == sources[i]@,
        param_views(params).len() == params.len(),
        param_views(params)[j].0 == params[j].name@,
        param_views(params)[j].1 == params[j].value,
{
}

/// The view of a generated population repeats its fields and those of its transients.
pub proof fn law_population_view(input: PopulationInput, one: TransientInstance, i: int)
    requires
        0 <= i < input.instances@.len(),
        input.instances@[i] == one,
    ensures
        input@.transient_type == input.transient_type@,
        input@.volumetric_rate == input.volumetric_rate,
        input@.instances.len() == input.instances@.len(),
        input@.instances[i].ra == one.ra,
        input@.instances[i].dec == one.dec,
        input@.instances[i].t_exp == one.t_exp,
        input@.instances[i].z == one.z,
        input@.instances[i].peak_abs_mag == one.peak_abs_mag,
        input@.instances[i].model_params == param_views(one.model_params@),
{
}

/// The views of a sighting, a lightcurve and a series repeat their fields.
pub proof fn law_series_views(
    sighting: Sighting,
    eval: LightcurveEvaluation,
    series: StackedSeries,
    measured: Measured,
)
    ensures
        sighting@.instance == sighting.instance,
        sighting@.observations == observations(sighting.observations@),
        eval@.mags == eval.apparent_mags@,
        eval@.times == eval.times_mjd@,
        series@.observations == observations(series.observations@),
        series@.evaluation == series.evaluation@,
        measured@.instance == measured.instance,
        measured@.series == measured.series@,
{
}

/// The views of a bin and of a rate repeat their fields.
pub proof fn law_summary_views(bin: BinSummary, rate: RateSummary)
    ensures
        bin@.band == bin.band@,
        bin@.members == bin.members@,
        bin@.mjds == bin.mjds@,
        bin@.usable_mags == bin.usable_mags@,
        bin@.lower_depth == bin.lower_depth,
        bin@.upper_depth == bin.upper_depth,
        bin@.exposure_time == bin.exposure_time,
        rate@.transient_type == rate.transient_type@,
        rate@.volumetric_rate == rate.volumetric_rate,
        rate@.detections_per_year == rate.detections_per_year,
        rate@.detections_total == rate.detections_total,
        rate@.overall_efficiency == rate.overall_efficiency,
        rate@.survey_omega_sr == rate.survey_omega_sr,
        rate@.z_max == rate.z_max,
{
}

/// The times of averaged bins, and the characters of texts, are there for each in its place.
pub proof fn law_value_lists(values: Seq<StackedValues>, names: Seq<String>, i: int, j: int)
    requires
        0 <= i < values.len(),
        0 <= j < names.len(),
    ensures
        value_times(values).len() == values.len(),
        value_times(values)[i] == values[i].mjd,
        texts(names).len() == names.len(),
        texts(names)[j] == names[j]@,
{
}

/// The columns of measured magnitudes have one row for each, with its own time, magnitude, error and
/// band.
pub proof fn law_point_columns(points: Seq<PointView>, columns: PhotometryColumns, i: int)
    requires
        are_point_columns(points, columns),
    ensures
        columns.times@.len() == points.len(),
        columns.mags@.len() == points.len(),
        columns.mag_errs@.len() == points.len(),
        columns.bands@.len() == points.len(),
        0 <= i < points.len() ==> {
            &&& columns.times@[i] == points[i].mjd
            &&& columns.mags@[i] == points[i].mag
            &&& columns.mag_errs@[i] == points[i].mag_err
            &&& columns.bands@[i]@ == points[i].band
        },
{
}

/// The columns of upper limits have one row for each, with its own time, depth and band.
pub proof fn law_limit_columns(limits: Seq<LimitView>, columns: LimitColumns, i: int)
    requires
        are_limit_columns(limits, columns),
    ensures
        columns.times@.len() == limits.len(),
        columns.depths@.len() == limits.len(),
        columns.bands@.len() == limits.len(),
        0 <= i < limits.len() ==> {
            &&& columns.times@[i] == limits[i].mjd
            &&& columns.depths@[i] == limits[i].depth
            &&& columns.bands@[i]@ == limits[i].band
        },
{
}

} // verus!
