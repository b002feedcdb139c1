//! Simulated sources with their photometry and the truth about them.
use vstd::prelude::*;

use crate::double::Double;
use crate::photometry::{
    limit_views, point_views, LimitView, PhotometryPoint, PointView, UpperLimit,
};

verus! {

/// A model parameter.
#[derive(Debug)]
pub struct Param {
    pub name: String,
    pub value: Double,
}

impl Clone for Param {
    fn clone(&self) -> (res: Self)
        ensures
            res == *self,
    {
        Param { name: self.name.clone(), value: self.value }
    }
}

/// Model parameters, their names as characters.
pub open spec fn param_views(list: Seq<Param>) -> Seq<(Seq<char>, Double)> {
    Seq::new(list.len(), |i: int| (list[i].name@, list[i].value))
}

/// No parameter is named twice.
pub open spec fn distinct_names(params: Seq<(Seq<char>, Double)>) -> bool {
    forall|i: int, j: int|
        0 <= i < j < params.len() ==> (#[trigger] params[i]).0 != (#[trigger] params[j]).0
}

/// Copies a list of parameters.
pub fn copy_params(list: &Vec<Param>) -> (res: Vec<Param>)
    ensures
        res@ == list@,
{
    let mut res: Vec<Param> = Vec::new();
    for i in 0..list.len()
        invariant
            res@ == list@.take(i as int),
    {
        res.push(list[i].clone());
        assert(list@.take(i + 1) =~= list@.take(i as int).push(list@[i as int]));
    }
    assert(list@.take(list@.len() as int) =~= list@);
    res
}

/// A generated transient.
#[derive(Debug)]
pub struct TransientInstance {
    /// Right ascension in degrees.
    pub ra: Double,
    /// Declination in degrees.
    pub dec: Double,
    pub t_exp: Double,
    pub z: Double,
    pub peak_abs_mag: Double,
    /// No name occurs twice.
    pub model_params: Vec<Param>,
}

impl TransientInstance {
    /// No model parameter is named twice.
    pub open spec fn wf(self) -> bool {
        distinct_names(param_views(self.model_params@))
    }
}

/// What a transient says, names as characters.
#[verifier::ext_equal]
pub struct InstanceView {
    pub ra: Double,
    pub dec: Double,
    pub t_exp: Double,
    pub z: Double,
    pub peak_abs_mag: Double,
    pub model_params: Seq<(Seq<char>, Double)>,
}

impl View for TransientInstance {
    type V = InstanceView;

    open spec fn view(&self) -> InstanceView {
        InstanceView {
            ra: self.ra,
            dec: self.dec,
            t_exp: self.t_exp,
            z: self.z,
            peak_abs_mag: self.peak_abs_mag,
            model_params: param_views(self.model_params@),
        }
    }
}

/// A generated population.
#[derive(Debug)]
pub struct PopulationInput {
    pub transient_type: String,
    pub volumetric_rate: Double,
    pub instances: Vec<TransientInstance>,
}

impl PopulationInput {
    /// No transient has a model parameter twice.
    pub open spec fn wf(self) -> bool {
        forall|i: int| 0 <= i < self.instances@.len() ==> (#[trigger] self.instances@[i]).wf()
    }
}

/// What a population says, names as characters.
#[verifier::ext_equal]
pub struct InputView {
    pub transient_type: Seq<char>,
    pub volumetric_rate: Double,
    pub instances: Seq<InstanceView>,
}

impl View for PopulationInput {
    type V = InputView;

    open spec fn view(&self) -> InputView {
        InputView {
            transient_type: self.transient_type@,
            volumetric_rate: self.volumetric_rate,
            instances: Seq::new(self.instances@.len(), |i: int| self.instances@[i]@),
        }
    }
}

/// A source: photometry, and the true parameters behind it.
#[derive(Debug)]
pub struct PyDetectedSource {
    /// No name occurs twice.
    pub true_params: Vec<Param>,
    pub z: Double,
    pub peak_abs_mag: Double,
    pub t_exp: Double,
    pub transient_type: String,
    pub photometry: Vec<PhotometryPoint>,
    pub non_detections: Vec<UpperLimit>,
}

/// What a source says, names as characters.
pub struct SourceView {
    pub true_params: Seq<(Seq<char>, Double)>,
    pub z: Double,
    pub peak_abs_mag: Double,
    pub t_exp: Double,
    pub transient_type: Seq<char>,
    pub photometry: Seq<PointView>,
    pub non_detections: Seq<LimitView>,
}

impl View for PyDetectedSource {
    type V = SourceView;

    open spec fn view(&self) -> SourceView {
        SourceView {
            true_params: param_views(self.true_params@),
            z: self.z,
            peak_abs_mag: self.peak_abs_mag,
            t_exp: self.t_exp,
            transient_type: self.transient_type@,
            photometry: point_views(self.photometry@),
            non_detections: limit_views(self.non_detections@),
        }
    }
}

/// No source names a true parameter twice.
pub open spec fn have_distinct_params(sources: Seq<SourceView>) -> bool {
    forall|j: int| 0 <= j < sources.len() ==> distinct_names((#[trigger] sources[j]).true_params)
}

/// The views of a list of sources.
pub open spec fn source_views(list: Seq<PyDetectedSource>) -> Seq<SourceView> {
    Seq::new(list.len(), |i: int| list[i]@)
}

impl Clone for PyDetectedSource {
    fn clone(&self) -> (res: Self)
        ensures
            res@ == self@,
    {
        let mut photometry: Vec<PhotometryPoint> = Vec::new();
        for i in 0..self.photometry.len()
            invariant
                photometry@ == self.photometry@.take(i as int),
        {
            photometry.push(self.photometry[i].clone());
            assert(self.photometry@.take(i + 1) =~= self.photometry@.take(i as int).push(
                self.photometry@[i as int],
            ));
        }
        assert(self.photometry@.take(self.photometry@.len() as int) =~= self.photometry@);
        let mut non_detections: Vec<UpperLimit> = Vec::new();
        for i in 0..self.non_detections.len()
            invariant
                non_detections@ == self.non_detections@.take(i as int),
        {
            non_detections.push(self.non_detections[i].clone());
            assert(self.non_detections@.take(i + 1) =~= self.non_detections@.take(i as int).push(
                self.non_detections@[i as int],
            ));
        }
        assert(self.non_detections@.take(self.non_detections@.len() as int)
            =~= self.non_detections@);
        PyDetectedSource {
            true_params: copy_params(&self.true_params),
            z: self.z,
            peak_abs_mag: self.peak_abs_mag,
            t_exp: self.t_exp,
            transient_type: self.transient_type.clone(),
            photometry,
            non_detections,
        }
    }
}

/// The columns of a table of measured magnitudes.
#[derive(Debug)]
pub struct PhotometryColumns {
    pub times: Vec<Double>,
    pub mags: Vec<Double>,
    pub mag_errs: Vec<Double>,
    pub bands: Vec<String>,
}

/// The columns of a table of upper limits.
#[derive(Debug)]
pub struct LimitColumns {
    pub times: Vec<Double>,
    pub depths: Vec<Double>,
    pub bands: Vec<String>,
}

/// The columns hold the measured magnitudes row by row.
pub open spec fn are_point_columns(points: Seq<PointView>, columns: PhotometryColumns) -> bool {
    &&& columns.times@.len() == points.len()
    &&& columns.mags@.len() == points.len()
    &&& columns.mag_errs@.len() == points.len()
    &&& columns.bands@.len() == points.len()
    &&& forall|i: int|
        0 <= i < points.len() ==> #[trigger] points[i] == (PointView {
            mjd: columns.times@[i],
            mag: columns.mags@[i],
            mag_err: columns.mag_errs@[i],
            band: columns.bands@[i]@,
        })
}

/// The columns hold the upper limits row by row.
pub open spec fn are_limit_columns(limits: Seq<LimitView>, columns: LimitColumns) -> bool {
    &&& columns.times@.len() == limits.len()
    &&& columns.depths@.len() == limits.len()
    &&& columns.bands@.len() == limits.len()
    &&& forall|i: int|
        0 <= i < limits.len() ==> #[trigger] limits[i] == (LimitView {
            mjd: columns.times@[i],
            depth: columns.depths@[i],
            band: columns.bands@[i]@,
        })
}

impl PyDetectedSource {
    /// The number of measured magnitudes.
    pub fn n_obs(&self) -> (res: usize)
        ensures
            res == self@.photometry.len(),
    {
        self.photometry.len()
    }

    /// The number of upper limits.
    pub fn n_non_detections(&self) -> (res: usize)
        ensures
            res == self@.non_detections.len(),
    {
        self.non_detections.len()
    }

    /// The measured magnitudes as columns.
    pub fn photometry(&self) -> (res: PhotometryColumns)
        ensures
            are_point_columns(self@.photometry, res),
            res.times@.len() == self@.photometry.len(),
            res.mags@.len() == self@.photometry.len(),
            res.mag_errs@.len() == self@.photometry.len(),
            res.bands@.len() == self@.photometry.len(),
            forall|i: int|
                0 <= i < self@.photometry.len() ==> #[trigger] self@.photometry[i] == (PointView {
                    mjd: res.times@[i],
                    mag: res.mags@[i],
                    mag_err: res.mag_errs@[i],
                    band: res.bands@[i]@,
                }),
    {
        let mut res = PhotometryColumns {
            times: Vec::new(),
            mags: Vec::new(),
            mag_errs: Vec::new(),
            bands: Vec::new(),
        };
        for i in 0..self.photometry.len()
            invariant
                res.times@.len() == i,
                res.mags@.len() == i,
                res.mag_errs@.len() == i,
                res.bands@.len() == i,
                forall|j: int|
                    0 <= j < i ==> (#[trigger] self.photometry@[j])@ == (PointView {
                        mjd: res.times@[j],
                        mag: res.mags@[j],
                        mag_err: res.mag_errs@[j],
                        band: res.bands@[j]@,
                    }),
        {
            let point = &self.photometry[i];
            res.times.push(point.mjd);
            res.mags.push(point.mag);
            res.mag_errs.push(point.mag_err);
            res.bands.push(point.band.clone());
        }
        assert forall|i: int| 0 <= i < self@.photometry.len() implies #[trigger] self@.photometry[i]
            == (PointView {
            mjd: res.times@[i],
            mag: res.mags@[i],
            mag_err: res.mag_errs@[i],
            band: res.bands@[i]@,
        }) by {
            assert(self@.photometry[i] == self.photometry@[i]@);
        }
        res
    }

    /// The upper limits as columns.
    pub fn non_detections(&self) -> (res: LimitColumns)
        ensures
            are_limit_columns(self@.non_detections, res),
            res.times@.len() == self@.non_detections.len(),
            res.depths@.len() == self@.non_detections.len(),
            res.bands@.len() == self@.non_detections.len(),
            forall|i: int|
                0 <= i < self@.non_detections.len() ==> #[trigger] self@.non_detections[i] == (
                LimitView {
                    mjd: res.times@[i],
                    depth: res.depths@[i],
                    band: res.bands@[i]@,
                }),
    {
        let mut res = LimitColumns { times: Vec::new(), depths: Vec::new(), bands: Vec::new() };
        for i in 0..self.non_detections.len()
            invariant
                res.times@.len() == i,
                res.depths@.len() == i,
                res.bands@.len() == i,
                forall|j: int|
                    0 <= j < i ==> (#[trigger] self.non_detections@[j])@ == (LimitView {
                        mjd: res.times@[j],
                        depth: res.depths@[j],
                        band: res.bands@[j]@,
                    }),
        {
            let limit = &self.non_detections[i];
            res.times.push(limit.mjd);
            res.depths.push(limit.depth);
            res.bands.push(limit.band.clone());
        }
        assert forall|i: int| 0 <= i < self@.non_detections.len() implies
            #[trigger] self@.non_detections[i] == (LimitView {
            mjd: res.times@[i],
            depth: res.depths@[i],
            band: res.bands@[i]@,
        }) by {
            assert(self@.non_detections[i] == self.non_detections@[i]@);
        }
        res
    }
}

} // verus!
