//! Survey observations and the model magnitudes that belong to them.
use vstd::prelude::*;

use crate::double::Double;

verus! {

/// One exposure of the survey.
#[derive(Debug)]
pub struct SurveyObservation {
    pub obs_id: u64,
    pub ra: Double,
    pub dec: Double,
    pub mjd: Double,
    pub band: String,
    pub five_sigma_depth: Double,
    pub seeing_fwhm: Double,
    pub exposure_time: Double,
    pub airmass: Double,
    pub sky_brightness: Double,
    pub night: i64,
}

/// What an exposure says, its band name as characters.
pub struct ObservationView {
    pub obs_id: u64,
    pub ra: Double,
    pub dec: Double,
    pub mjd: Double,
    pub band: Seq<char>,
    pub five_sigma_depth: Double,
    pub seeing_fwhm: Double,
    pub exposure_time: Double,
    pub airmass: Double,
    pub sky_brightness: Double,
    pub night: i64,
}

impl View for SurveyObservation {
    type V = ObservationView;

    open spec fn view(&self) -> ObservationView {
        ObservationView {
            obs_id: self.obs_id,
            ra: self.ra,
            dec: self.dec,
            mjd: self.mjd,
            band: self.band@,
            five_sigma_depth: self.five_sigma_depth,
            seeing_fwhm: self.seeing_fwhm,
            exposure_time: self.exposure_time,
            airmass: self.airmass,
            sky_brightness: self.sky_brightness,
            night: self.night,
        }
    }
}

impl Clone for SurveyObservation {
    fn clone(&self) -> (res: Self)
        ensures
            res == *self,
    {
        SurveyObservation {
            obs_id: self.obs_id,
            ra: self.ra,
            dec: self.dec,
            mjd: self.mjd,
            band: self.band.clone(),
            five_sigma_depth: self.five_sigma_depth,
            seeing_fwhm: self.seeing_fwhm,
            exposure_time: self.exposure_time,
            airmass: self.airmass,
            sky_brightness: self.sky_brightness,
            night: self.night,
        }
    }
}

/// The views of a list of exposures.
pub open spec fn observations(list: Seq<SurveyObservation>) -> Seq<ObservationView> {
    Seq::new(list.len(), |i: int| list[i]@)
}

/// The times of a list of exposures.
pub open spec fn times(list: Seq<ObservationView>) -> Seq<Double> {
    Seq::new(list.len(), |i: int| list[i].mjd)
}

/// The band names of a list of exposures.
pub open spec fn bands(list: Seq<ObservationView>) -> Seq<Seq<char>> {
    Seq::new(list.len(), |i: int| list[i].band)
}

/// Copies a list of exposures.
pub fn copy_observations(list: &Vec<SurveyObservation>) -> (res: Vec<SurveyObservation>)
    ensures
        res@ == list@,
{
    let mut res: Vec<SurveyObservation> = Vec::new();
    for i in 0..list.len()
        invariant
            res@ == list@.take(i as int),
    {
        res.push(list[i].clone());
        assert(list@.take(i + 1) =~= list@.take(i as int).push(list@[i as int]));
    }
    assert(list@.take(list@.len() as int) =~= list@);
    res
}

/// Copies a list of numbers.
pub fn copy_doubles(list: &Vec<Double>) -> (res: Vec<Double>)
    ensures
        res@ == list@,
{
    let mut res: Vec<Double> = Vec::new();
    for i in 0..list.len()
        invariant
            res@ == list@.take(i as int),
    {
        res.push(list[i]);
        assert(list@.take(i + 1) =~= list@.take(i as int).push(list@[i as int]));
    }
    assert(list@.take(list@.len() as int) =~= list@);
    res
}

/// The times of some exposures.
pub fn observation_times(list: &Vec<SurveyObservation>) -> (res: Vec<Double>)
    ensures
        res@ == times(observations(list@)),
{
    let mut res: Vec<Double> = Vec::new();
    for i in 0..list.len()
        invariant
            res@.len() == i,
            forall|j: int| 0 <= j < i ==> #[trigger] res@[j] == list@[j].mjd,
    {
        res.push(list[i].mjd);
    }
    assert(res@ =~= times(observations(list@)));
    res
}

/// The magnitudes predicted in one band, one for each exposure.
#[derive(Debug)]
pub struct BandMags {
    pub band: String,
    pub mags: Vec<Double>,
}

/// The contents of a list of bands, as a map from the band name.
pub open spec fn table(entries: Seq<BandMags>) -> Map<Seq<char>, Seq<Double>>
    decreases entries.len(),
{
    if entries.len() == 0 {
        Map::empty()
    } else {
        table(entries.drop_last()).insert(entries.last().band@, entries.last().mags@)
    }
}

/// No band is listed twice.
pub open spec fn distinct(entries: Seq<BandMags>) -> bool {
    forall|i: int, j: int|
        0 <= i < j < entries.len() ==> (#[trigger] entries[i]).band@ != (#[trigger] entries[j]).band@
}

proof fn lemma_table(entries: Seq<BandMags>)
    requires
        distinct(entries),
    ensures
        forall|i: int|
            0 <= i < entries.len() ==> table(entries).contains_key((#[trigger] entries[i]).band@)
                && table(entries)[entries[i].band@] == entries[i].mags@,
        forall|b: Seq<char>| #[trigger]
            table(entries).contains_key(b) ==> exists|i: int|
                0 <= i < entries.len() && (#[trigger] entries[i]).band@ == b,
    decreases entries.len(),
{
    if entries.len() > 0 {
        let rest = entries.drop_last();
        lemma_table(rest);
        assert forall|b: Seq<char>| #[trigger] table(entries).contains_key(b) implies exists|i: int|
            0 <= i < entries.len() && (#[trigger] entries[i]).band@ == b by {
            if b == entries.last().band@ {
                assert(entries[entries.len() - 1].band@ == b);
            } else {
                assert(table(rest).contains_key(b));
                let i = choose|i: int| 0 <= i < rest.len() && (#[trigger] rest[i]).band@ == b;
                assert(entries[i].band@ == b);
            }
        }
        assert forall|i: int| 0 <= i < entries.len() implies table(entries).contains_key(
            (#[trigger] entries[i]).band@,
        ) && table(entries)[entries[i].band@] == entries[i].mags@ by {
            if i < rest.len() {
                assert(rest[i] == entries[i]);
            }
        }
    }
}

/// Magnitudes by band name. A band occurs once.
#[derive(Debug)]
pub struct MagTable {
    entries: Vec<BandMags>,
}

impl View for MagTable {
    type V = Map<Seq<char>, Seq<Double>>;

    closed spec fn view(&self) -> Map<Seq<char>, Seq<Double>> {
        table(self.entries@)
    }
}

impl MagTable {
    /// No band occurs twice.
    pub closed spec fn wf(self) -> bool {
        distinct(self.entries@)
    }

    /// The band names in the order in which they were first entered.
    pub closed spec fn names(self) -> Seq<Seq<char>> {
        Seq::new(self.entries@.len(), |i: int| self.entries@[i].band@)
    }

    /// The listing names the bands of the table, each once.
    pub proof fn lemma_names(self)
        requires
            self.wf(),
        ensures
            forall|b: Seq<char>| #[trigger] self@.contains_key(b) <==> self.names().contains(b),
            self.names().no_duplicates(),
    {
        lemma_table(self.entries@);
        assert forall|b: Seq<char>| #[trigger] self@.contains_key(b) <==> self.names().contains(b) by {
            if self@.contains_key(b) {
                let i = choose|i: int|
                    0 <= i < self.entries@.len() && (#[trigger] self.entries@[i]).band@ == b;
                assert(self.names()[i] == b);
            }
            if self.names().contains(b) {
                let i = choose|i: int| 0 <= i < self.names().len() && self.names()[i] == b;
                assert(self.entries@[i].band@ == b);
            }
        }
    }

    /// A table without bands.
    pub fn new() -> (res: MagTable)
        ensures
            res.wf(),
            res@ == Map::<Seq<char>, Seq<Double>>::empty(),
            res.names() == Seq::<Seq<char>>::empty(),
    {
        let res = MagTable { entries: Vec::new() };
        assert(res.names() =~= Seq::<Seq<char>>::empty());
        res
    }

    /// Where a band is listed, if it is.
    fn find(&self, band: &String) -> (res: Option<usize>)
        requires
            self.wf(),
        ensures
            match res {
                Some(i) => i < self.entries@.len() && self.entries@[i as int].band@ == band@,
                None => !self@.contains_key(band@),
            },
    {
        for i in 0..self.entries.len()
            invariant
                forall|j: int| 0 <= j < i ==> (#[trigger] self.entries@[j]).band@ != band@,
        {
            if self.entries[i].band == *band {
                return Some(i);
            }
        }
        proof {
            lemma_table(self.entries@);
        }
        None
    }

    /// The magnitudes of a band.
    pub fn get(&self, band: &String) -> (res: Option<&Vec<Double>>)
        requires
            self.wf(),
        ensures
            match res {
                Some(mags) => self@.contains_key(band@) && self@[band@] == mags@,
                None => !self@.contains_key(band@),
            },
    {
        proof {
            lemma_table(self.entries@);
        }
        match self.find(band) {
            Some(i) => Some(&self.entries[i].mags),
            None => None,
        }
    }

    /// The number of bands.
    pub fn len(&self) -> (res: usize)
        ensures
            res == self.names().len(),
    {
        self.entries.len()
    }

    /// The name of the band at a place of the listing.
    pub fn name_at(&self, index: usize) -> (res: &String)
        requires
            index < self.names().len(),
        ensures
            res@ == self.names()[index as int],
    {
        &self.entries[index].band
    }

    /// The magnitudes of the band at a place of the listing.
    pub fn mags_at(&self, index: usize) -> (res: &Vec<Double>)
        requires
            self.wf(),
            index < self.names().len(),
        ensures
            res@ == self@[self.names()[index as int]],
    {
        proof {
            lemma_table(self.entries@);
        }
        &self.entries[index].mags
    }

    /// A copy of the table.
    pub fn copy(&self) -> (res: MagTable)
        requires
            self.wf(),
        ensures
            res.wf(),
            res@ == self@,
            res.names() == self.names(),
    {
        proof {
            self.lemma_names();
        }
        let mut res = MagTable::new();
        let count: usize = self.len();
        for i in 0..count
            invariant
                self.wf(),
                count == self.names().len(),
                self.names().no_duplicates(),
                res.wf(),
                res.names() == self.names().take(i as int),
                forall|b: Seq<char>| #[trigger]
                    res@.contains_key(b) <==> self.names().take(i as int).contains(b),
                forall|b: Seq<char>| #[trigger] res@.contains_key(b) ==> res@[b] == self@[b],
        {
            let ghost before = self.names().take(i as int);
            let ghost name = self.names()[i as int];
            assert(!before.contains(name));
            res.extend(self.name_at(i), self.mags_at(i));
            assert(self.names().take(i + 1) =~= before.push(name));
            assert forall|b: Seq<char>| #[trigger] res@.contains_key(b) <==> before.push(
                name,
            ).contains(b) by {
                if before.contains(b) {
                    let k = choose|k: int| 0 <= k < before.len() && before[k] == b;
                    assert(before.push(name)[k] == b);
                }
                assert(before.push(name)[i as int] == name);
            }
        }
        assert(self.names().take(self.names().len() as int) =~= self.names());
        assert(res@ =~= self@);
        res
    }

    /// Appends magnitudes to those of a band, which is entered if it was not there.
    pub fn extend(&mut self, band: &String, mags: &Vec<Double>)
        requires
            old(self).wf(),
        ensures
            final(self).wf(),
            final(self)@ == old(self)@.insert(
                band@,
                if old(self)@.contains_key(band@) {
                    old(self)@[band@] + mags@
                } else {
                    mags@
                },
            ),
            final(self).names() == if old(self)@.contains_key(band@) {
                old(self).names()
            } else {
                old(self).names().push(band@)
            },
    {
        let ghost before = self.entries@;
        proof {
            lemma_table(before);
        }
        match self.find(band) {
            Some(i) => {
                let mut joined = copy_doubles(&self.entries[i].mags);
                for k in 0..mags.len()
                    invariant
                        joined@ == before[i as int].mags@ + mags@.take(k as int),
                {
                    joined.push(mags[k]);
                    assert(mags@.take(k + 1) =~= mags@.take(k as int).push(mags@[k as int]));
                    assert(before[i as int].mags@ + mags@.take(k + 1) =~= (before[i as int].mags@
                        + mags@.take(k as int)).push(mags@[k as int]));
                }
                assert(mags@.take(mags@.len() as int) =~= mags@);
                let name = self.entries[i].band.clone();
                self.entries.set(i, BandMags { band: name, mags: joined });
                proof {
                    lemma_table_set(before, i as int, self.entries@[i as int]);
                }
                assert(self.names() =~= old(self).names());
            },
            None => {
                let copy = copy_doubles(mags);
                self.entries.push(BandMags { band: band.clone(), mags: copy });
                assert(self.entries@.drop_last() =~= before);
                assert(self.names() =~= old(self).names().push(band@));
                assert(distinct(self.entries@)) by {
                    assert forall|i: int, j: int| 0 <= i < j < self.entries@.len() implies (
                    #[trigger] self.entries@[i]).band@ != (#[trigger] self.entries@[j]).band@ by {
                        assert(table(before).contains_key(before[i].band@));
                    }
                }
            },
        }
    }
}

/// Replacing the magnitudes of a listed band changes the map at that band alone.
proof fn lemma_table_set(entries: Seq<BandMags>, i: int, entry: BandMags)
    requires
        distinct(entries),
        0 <= i < entries.len(),
        entry.band@ == entries[i].band@,
    ensures
        distinct(entries.update(i, entry)),
        table(entries.update(i, entry)) == table(entries).insert(entry.band@, entry.mags@),
{
    let after = entries.update(i, entry);
    lemma_table(entries);
    lemma_table(after);
    assert forall|b: Seq<char>| table(after).contains_key(b) <==> #[trigger] table(entries).insert(
        entry.band@,
        entry.mags@,
    ).contains_key(b) by {
        if table(after).contains_key(b) {
            let j = choose|j: int| 0 <= j < after.len() && (#[trigger] after[j]).band@ == b;
            assert(entries[j].band@ == b);
        }
        if table(entries).contains_key(b) {
            let j = choose|j: int| 0 <= j < entries.len() && (#[trigger] entries[j]).band@ == b;
            assert(after[j].band@ == b);
        }
        assert(after[i].band@ == entry.band@);
    }
    assert forall|b: Seq<char>| #[trigger] table(after).contains_key(b) implies table(after)[b]
        == table(entries).insert(entry.band@, entry.mags@)[b] by {
        let j = choose|j: int| 0 <= j < after.len() && (#[trigger] after[j]).band@ == b;
        assert(entries[j].band@ == b);
        if j == i {
            assert(after[i] == entry);
        }
    }
    assert(table(after) =~= table(entries).insert(entry.band@, entry.mags@));
}

/// The magnitudes a model predicts for the exposures of one transient.
#[derive(Debug)]
pub struct LightcurveEvaluation {
    pub apparent_mags: MagTable,
    pub times_mjd: Vec<Double>,
}

/// What a lightcurve evaluation says.
#[verifier::ext_equal]
pub struct EvaluationView {
    pub mags: Map<Seq<char>, Seq<Double>>,
    pub times: Seq<Double>,
}

impl View for LightcurveEvaluation {
    type V = EvaluationView;

    open spec fn view(&self) -> EvaluationView {
        EvaluationView { mags: self.apparent_mags@, times: self.times_mjd@ }
    }
}

} // verus!
