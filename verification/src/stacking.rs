//! Stacking of exposures taken close together in one band.
use vstd::prelude::*;

use crate::binning::{
    band_members, bands_comparable, by_time, evaluated_bands, is_plan, lemma_band_members,
    lemma_evaluated_bands, lemma_joined, member_times, plan_bins, BandStack,
};
use crate::double::{Double, NINETY_BITS, NINETY_NINE_BITS};
use crate::order::{
    comparable, is_comparable, is_stable_order, lemma_order_exists, order_of, stable_order,
};
use crate::survey::{
    bands, copy_doubles, copy_observations, observation_times, observations, times,
    EvaluationView, LightcurveEvaluation, MagTable, ObservationView, SurveyObservation,
};

verus! {

/// The depths of the exposures at some positions.
pub open spec fn member_depths(list: Seq<ObservationView>, members: Seq<usize>) -> Seq<Double> {
    Seq::new(members.len(), |i: int| list[members[i] as int].five_sigma_depth)
}

/// The bins of all bands one after the other, each with its band.
pub open spec fn bin_list(stacks: Seq<BandStack>) -> Seq<(Seq<char>, Seq<usize>)>
    decreases stacks.len(),
{
    if stacks.len() == 0 {
        Seq::empty()
    } else {
        bin_list(stacks.drop_last()) + labelled(stacks.last().band@, stacks.last().bins@)
    }
}

/// Bins with the band they belong to.
pub open spec fn labelled(band: Seq<char>, bins: Seq<Vec<usize>>) -> Seq<(Seq<char>, Seq<usize>)> {
    Seq::new(bins.len(), |i: int| (band, bins[i]@))
}

/// The magnitudes at some positions that a model really predicts: those that exist and are
/// brighter than 90.
pub open spec fn usable(mags: Seq<Double>, members: Seq<usize>) -> Seq<Double>
    decreases members.len(),
{
    if members.len() == 0 {
        Seq::empty()
    } else {
        let before = usable(mags, members.drop_last());
        let p = members.last();
        if p < mags.len() && mags[p as int].below(Double { bits: NINETY_BITS }) {
            before.push(mags[p as int])
        } else {
            before
        }
    }
}

/// The two middle values, whose mean is the median; of an odd number of values they are the same.
pub open spec fn middles(values: Seq<Double>) -> (Double, Double) {
    let order = order_of(values);
    let count = values.len() as int;
    (values[order[(count - 1) / 2] as int], values[order[count / 2] as int])
}

/// What averaging a bin needs of its exposures.
#[derive(Debug)]
pub struct BinSummary {
    pub band: String,
    pub members: Vec<usize>,
    /// Times of the members.
    pub mjds: Vec<Double>,
    /// Magnitudes that the model really predicts for members.
    pub usable_mags: Vec<Double>,
    /// The lower of the two middle depths.
    pub lower_depth: Double,
    /// The upper of the two middle depths.
    pub upper_depth: Double,
    /// Exposure time of the first member.
    pub exposure_time: Double,
}

/// What a summary says, the band name as characters.
#[verifier::ext_equal]
pub struct SummaryView {
    pub band: Seq<char>,
    pub members: Seq<usize>,
    pub mjds: Seq<Double>,
    pub usable_mags: Seq<Double>,
    pub lower_depth: Double,
    pub upper_depth: Double,
    pub exposure_time: Double,
}

impl View for BinSummary {
    type V = SummaryView;

    open spec fn view(&self) -> SummaryView {
        SummaryView {
            band: self.band@,
            members: self.members@,
            mjds: self.mjds@,
            usable_mags: self.usable_mags@,
            lower_depth: self.lower_depth,
            upper_depth: self.upper_depth,
            exposure_time: self.exposure_time,
        }
    }
}

/// `summary` is that of the given members of a band with the given magnitudes.
pub open spec fn is_summary(
    list: Seq<ObservationView>,
    mags: Map<Seq<char>, Seq<Double>>,
    bin: (Seq<char>, Seq<usize>),
    summary: BinSummary,
) -> bool {
    &&& summary.band@ == bin.0
    &&& summary.members@ == bin.1
    &&& summary.mjds@ == member_times(list, bin.1)
    &&& summary.usable_mags@ == usable(mags[bin.0], bin.1)
    &&& (summary.lower_depth, summary.upper_depth) == middles(member_depths(list, bin.1))
    &&& summary.exposure_time == list[bin.1[0] as int].exposure_time
}

/// A bin with members among `count` exposures.
pub open spec fn is_bin(count: nat, bin: (Seq<char>, Seq<usize>)) -> bool {
    &&& bin.1.len() > 0
    &&& forall|i: int| 0 <= i < bin.1.len() ==> #[trigger] bin.1[i] < count
}

/// Summarizes one bin. There is no answer exactly when its depths cannot be put in order.
fn summarize_bin(
    list: &Vec<SurveyObservation>,
    mags: &MagTable,
    band: &String,
    members: &Vec<usize>,
) -> (res: Option<BinSummary>)
    requires
        mags.wf(),
        mags@.contains_key(band@),
        is_bin(list@.len(), (band@, members@)),
    ensures
        res is Some <==> comparable(member_depths(observations(list@), members@)),
        res matches Some(summary) ==> is_summary(
            observations(list@),
            mags@,
            (band@, members@),
            summary,
        ),
{
    let ghost bin = (band@, members@);
    let limit = Double { bits: NINETY_BITS };
    let mut own: Vec<usize> = Vec::new();
    let mut mjds: Vec<Double> = Vec::new();
    let mut depths: Vec<Double> = Vec::new();
    let mut usable_mags: Vec<Double> = Vec::new();
    match mags.get(band) {
        None => {},
        Some(row) => {
            assert(members@.take(0) =~= Seq::empty());
            for i in 0..members.len()
                invariant
                    bin == (band@, members@),
                    is_bin(list@.len(), bin),
                    row@ == mags@[band@],
                    limit == (Double { bits: NINETY_BITS }),
                    own@ == members@.take(i as int),
                    mjds@.len() == i,
                    forall|j: int| 0 <= j < i ==> #[trigger] mjds@[j] == list@[members@[j] as int].mjd,
                    depths@.len() == i,
                    forall|j: int|
                        0 <= j < i ==> #[trigger] depths@[j] == list@[members@[j] as int].five_sigma_depth,
                    usable_mags@ == usable(row@, members@.take(i as int)),
            {
                let p: usize = members[i];
                assert(bin.1[i as int] == p);
                if p < row.len() && row[p].lt(&limit) {
                    usable_mags.push(row[p]);
                }
                own.push(p);
                mjds.push(list[p].mjd);
                depths.push(list[p].five_sigma_depth);
                assert(members@.take(i + 1).drop_last() =~= members@.take(i as int));
                assert(members@.take(i + 1) =~= members@.take(i as int).push(p));
            }
            assert(members@.take(members@.len() as int) =~= members@);
        },
    }
    assert(mjds@ =~= member_times(observations(list@), members@));
    assert(depths@ =~= member_depths(observations(list@), members@));
    if !is_comparable(&depths) {
        return None;
    }
    let order = stable_order(&depths);
    assert(bin.1[0] == members@[0]);
    Some(
        BinSummary {
            band: band.clone(),
            members: own,
            mjds,
            usable_mags,
            lower_depth: depths[order[(depths.len() - 1) / 2]],
            upper_depth: depths[order[depths.len() / 2]],
            exposure_time: list[members[0]].exposure_time,
        },
    )
}

/// In every bin the depths can be put in order.
pub open spec fn depths_comparable(
    list: Seq<ObservationView>,
    bins: Seq<(Seq<char>, Seq<usize>)>,
) -> bool {
    forall|k: int| 0 <= k < bins.len() ==> comparable(member_depths(list, (#[trigger] bins[k]).1))
}

/// Every bin has members, and its band has magnitudes.
pub open spec fn are_bins(
    count: nat,
    mags: Map<Seq<char>, Seq<Double>>,
    bins: Seq<(Seq<char>, Seq<usize>)>,
) -> bool {
    forall|k: int|
        0 <= k < bins.len() ==> is_bin(count, #[trigger] bins[k]) && mags.contains_key(bins[k].0)
}

/// `summaries` are those of the first bins, whose depths can be put in order.
spec fn are_first_summaries(
    list: Seq<ObservationView>,
    mags: Map<Seq<char>, Seq<Double>>,
    bins: Seq<(Seq<char>, Seq<usize>)>,
    summaries: Seq<BinSummary>,
) -> bool {
    forall|k: int|
        0 <= k < summaries.len() ==> {
            &&& is_summary(list, mags, bins[k], #[trigger] summaries[k])
            &&& comparable(member_depths(list, bins[k].1))
        }
}

/// Summarizes the bins of all bands. There is no answer exactly when the depths of some bin
/// cannot be put in order.
pub fn summarize_bins(list: &Vec<SurveyObservation>, mags: &MagTable, stacks: &Vec<BandStack>) -> (res:
    Option<Vec<BinSummary>>)
    requires
        mags.wf(),
        are_bins(list@.len(), mags@, bin_list(stacks@)),
    ensures
        res is Some <==> depths_comparable(observations(list@), bin_list(stacks@)),
        res matches Some(summaries) ==> are_summaries(
            observations(list@),
            mags@,
            bin_list(stacks@),
            summaries@,
        ),
{
    let ghost all = bin_list(stacks@);
    let mut summaries: Vec<BinSummary> = Vec::new();
    for g in 0..stacks.len()
        invariant
            mags.wf(),
            all == bin_list(stacks@),
            are_bins(list@.len(), mags@, all),
            summaries@.len() == bin_list(stacks@.take(g as int)).len(),
            are_first_summaries(observations(list@), mags@, all, summaries@),
    {
        let ghost done = bin_list(stacks@.take(g as int));
        proof {
            lemma_bin_list_at(stacks@, g as int);
        }
        let stack = &stacks[g];
        for i in 0..stack.bins.len()
            invariant
                mags.wf(),
                all == bin_list(stacks@),
                are_bins(list@.len(), mags@, all),
                g < stacks@.len(),
                *stack == stacks@[g as int],
                done.len() + stack.bins@.len() <= all.len(),
                forall|j: int|
                    0 <= j < stack.bins@.len() ==> all[done.len() + j] == (
                        stack.band@,
                        (#[trigger] stack.bins@[j])@,
                    ),
                summaries@.len() == done.len() + i,
                are_first_summaries(observations(list@), mags@, all, summaries@),
        {
            assert(all[done.len() + i] == (stack.band@, stack.bins@[i as int]@));
            match summarize_bin(list, mags, &stack.band, &stack.bins[i]) {
                None => {
                    return None;
                },
                Some(summary) => {
                    let ghost before = summaries@;
                    summaries.push(summary);
                    assert forall|k: int| 0 <= k < summaries@.len() implies {
                        &&& is_summary(observations(list@), mags@, all[k], #[trigger] summaries@[k])
                        &&& comparable(member_depths(observations(list@), all[k].1))
                    } by {
                        if k < before.len() {
                            assert(summaries@[k] == before[k]);
                        }
                    }
                },
            }
        }
    }
    proof {
        assert(stacks@.take(stacks@.len() as int) =~= stacks@);
        assert forall|k: int| 0 <= k < all.len() implies comparable(
            member_depths(observations(list@), (#[trigger] all[k]).1),
        ) by {
            assert(is_summary(observations(list@), mags@, all[k], summaries@[k]));
        }
    }
    Some(summaries)
}

/// The bins of a stack follow those of the stacks before it.
pub(crate) proof fn lemma_bin_list_at(stacks: Seq<BandStack>, g: int)
    requires
        0 <= g < stacks.len(),
    ensures
        bin_list(stacks.take(g + 1)).len() == bin_list(stacks.take(g)).len() + stacks[g].bins@.len(),
        bin_list(stacks.take(g + 1)).len() <= bin_list(stacks).len(),
        forall|k: int|
            0 <= k < bin_list(stacks.take(g)).len() ==> bin_list(stacks)[k] == #[trigger] bin_list(
                stacks.take(g),
            )[k],
        forall|j: int|
            0 <= j < stacks[g].bins@.len() ==> bin_list(stacks)[bin_list(stacks.take(g)).len() + j] == (
                stacks[g].band@,
                (#[trigger] stacks[g].bins@[j])@,
            ),
    decreases stacks.len(),
{
    let front = stacks.take(g + 1);
    assert(front.drop_last() =~= stacks.take(g));
    assert(front.last() == stacks[g]);
    if g + 1 < stacks.len() {
        let rest = stacks.drop_last();
        assert(rest.take(g) =~= stacks.take(g));
        assert(rest.take(g + 1) =~= stacks.take(g + 1));
        lemma_bin_list_at(rest, g);
        assert(forall|k: int|
            0 <= k < bin_list(rest).len() ==> bin_list(stacks)[k] == #[trigger] bin_list(rest)[k]);
        assert forall|k: int| 0 <= k < bin_list(stacks.take(g)).len() implies bin_list(stacks)[k]
            == #[trigger] bin_list(stacks.take(g))[k] by {
            assert(bin_list(rest)[k] == bin_list(rest.take(g))[k]);
        }
        assert forall|j: int| 0 <= j < stacks[g].bins@.len() implies bin_list(stacks)[bin_list(
            stacks.take(g),
        ).len() + j] == (stacks[g].band@, (#[trigger] stacks[g].bins@[j])@) by {
            assert(rest[g] == stacks[g]);
            assert(bin_list(rest)[bin_list(rest.take(g)).len() + j] == (
                rest[g].band@,
                rest[g].bins@[j]@,
            ));
        }
    } else {
        assert(front =~= stacks);
    }
}

/// The averages over a bin.
#[derive(Clone, Copy, Debug)]
pub struct StackedValues {
    pub mjd: Double,
    pub magnitude: Double,
    pub depth: Double,
    pub exposure_time: Double,
}

/// `summaries` are those of the given bins.
pub open spec fn are_summaries(
    list: Seq<ObservationView>,
    mags: Map<Seq<char>, Seq<Double>>,
    bins: Seq<(Seq<char>, Seq<usize>)>,
    summaries: Seq<BinSummary>,
) -> bool {
    &&& summaries.len() == bins.len()
    &&& forall|k: int|
        0 <= k < bins.len() ==> is_summary(list, mags, bins[k], #[trigger] summaries[k])
}

/// `values` are averages that `average` can give for the bins.
pub open spec fn are_averages<C: Fn(&BinSummary) -> StackedValues>(
    average: &C,
    summaries: Seq<BinSummary>,
    values: Seq<StackedValues>,
) -> bool {
    &&& values.len() == summaries.len()
    &&& forall|k: int|
        0 <= k < values.len() ==> call_ensures(*average, (&summaries[k],), #[trigger] values[k])
}

/// Averages every bin.
pub fn average_bins<C: Fn(&BinSummary) -> StackedValues>(
    summaries: &Vec<BinSummary>,
    average: &C,
) -> (values: Vec<StackedValues>)
    requires
        forall|summary: BinSummary| call_requires(*average, (&summary,)),
    ensures
        are_averages(average, summaries@, values@),
{
    let mut values: Vec<StackedValues> = Vec::new();
    for k in 0..summaries.len()
        invariant
            forall|summary: BinSummary| call_requires(*average, (&summary,)),
            values@.len() == k,
            forall|j: int|
                0 <= j < k ==> call_ensures(*average, (&summaries@[j],), #[trigger] values@[j]),
    {
        let value = average(&summaries[k]);
        values.push(value);
    }
    values
}

/// Stacked exposures, and the model magnitudes that belong to them.
#[derive(Debug)]
pub struct StackedSeries {
    pub observations: Vec<SurveyObservation>,
    pub evaluation: LightcurveEvaluation,
}

/// What a series says.
#[verifier::ext_equal]
pub struct SeriesView {
    pub observations: Seq<ObservationView>,
    pub evaluation: EvaluationView,
}

impl View for StackedSeries {
    type V = SeriesView;

    open spec fn view(&self) -> SeriesView {
        SeriesView {
            observations: observations(self.observations@),
            evaluation: self.evaluation@,
        }
    }
}

/// The exposure that stands for bin `k`: its first member with the averages put in.
pub open spec fn stacked_observation(
    list: Seq<ObservationView>,
    summaries: Seq<BinSummary>,
    values: Seq<StackedValues>,
    k: int,
) -> ObservationView {
    let template = list[summaries[k].members@[0] as int];
    ObservationView {
        obs_id: k as u64,
        ra: template.ra,
        dec: template.dec,
        mjd: values[k].mjd,
        band: summaries[k].band@,
        five_sigma_depth: values[k].depth,
        seeing_fwhm: template.seeing_fwhm,
        exposure_time: values[k].exposure_time,
        airmass: template.airmass,
        sky_brightness: template.sky_brightness,
        night: values[k].mjd.floored() as i64,
    }
}

/// The magnitude of bin `k`: 99 if the model predicts none for its members.
pub open spec fn stacked_magnitude(
    summaries: Seq<BinSummary>,
    values: Seq<StackedValues>,
    k: int,
) -> Double {
    if summaries[k].usable_mags@.len() == 0 {
        Double { bits: NINETY_NINE_BITS }
    } else {
        values[k].magnitude
    }
}

/// The times of averaged bins.
pub open spec fn value_times(values: Seq<StackedValues>) -> Seq<Double> {
    Seq::new(values.len(), |k: int| values[k].mjd)
}

/// The magnitudes of one band over all stacked exposures: 99 where the exposure is of another
/// band.
pub open spec fn stacked_row(
    summaries: Seq<BinSummary>,
    values: Seq<StackedValues>,
    band: Seq<char>,
) -> Seq<Double> {
    let order = order_of(value_times(values));
    Seq::new(
        values.len(),
        |p: int|
            if summaries[order[p] as int].band@ == band {
                stacked_magnitude(summaries, values, order[p] as int)
            } else {
                Double { bits: NINETY_NINE_BITS }
            },
    )
}

/// `series` holds one exposure for each bin, by ascending time, with its magnitude.
pub open spec fn is_stacked(
    list: Seq<ObservationView>,
    summaries: Seq<BinSummary>,
    values: Seq<StackedValues>,
    series: StackedSeries,
) -> bool {
    let order = order_of(value_times(values));
    let stacked = observations(series.observations@);
    let table = series.evaluation.apparent_mags@;
    &&& series.evaluation.apparent_mags.wf()
    &&& stacked.len() == values.len()
    &&& forall|p: int|
        0 <= p < stacked.len() ==> #[trigger] stacked[p] == stacked_observation(
            list,
            summaries,
            values,
            order[p] as int,
        )
    &&& series.evaluation.times_mjd@ == times(stacked)
    &&& forall|b: Seq<char>| #[trigger]
        table.contains_key(b) <==> exists|k: int|
            0 <= k < summaries.len() && (#[trigger] summaries[k]).band@ == b
    &&& forall|b: Seq<char>| #[trigger]
        table.contains_key(b) ==> table[b] == stacked_row(summaries, values, b)
}

/// Puts averaged bins in order of time. There is no answer exactly when their times cannot be put
/// in order.
pub fn assemble_stack(
    list: &Vec<SurveyObservation>,
    summaries: &Vec<BinSummary>,
    values: &Vec<StackedValues>,
) -> (res: Option<StackedSeries>)
    requires
        summaries@.len() == values@.len(),
        forall|k: int|
            0 <= k < summaries@.len() ==> (#[trigger] summaries@[k]).members@.len() > 0
                && summaries@[k].members@[0] < list@.len(),
    ensures
        res is Some <==> comparable(value_times(values@)),
        res matches Some(series) ==> is_stacked(
            observations(list@),
            summaries@,
            values@,
            series,
        ),
{
    let ghost views = observations(list@);
    let mut keys: Vec<Double> = Vec::new();
    for k in 0..values.len()
        invariant
            keys@.len() == k,
            forall|j: int| 0 <= j < k ==> #[trigger] keys@[j] == values@[j].mjd,
    {
        keys.push(values[k].mjd);
    }
    assert(keys@ =~= value_times(values@));
    if !is_comparable(&keys) {
        return None;
    }
    let order = stable_order(&keys);
    let mut stacked: Vec<SurveyObservation> = Vec::new();
    for p in 0..order.len()
        invariant
            views == observations(list@),
            keys@ == value_times(values@),
            is_stable_order(keys@, order@),
            summaries@.len() == values@.len(),
            forall|k: int|
                0 <= k < summaries@.len() ==> (#[trigger] summaries@[k]).members@.len() > 0
                    && summaries@[k].members@[0] < list@.len(),
            stacked@.len() == p,
            forall|j: int|
                0 <= j < p ==> (#[trigger] stacked@[j])@ == stacked_observation(
                    views,
                    summaries@,
                    values@,
                    order@[j] as int,
                ),
    {
        let k: usize = order[p];
        let template = &list[summaries[k].members[0]];
        stacked.push(
            SurveyObservation {
                obs_id: k as u64,
                ra: template.ra,
                dec: template.dec,
                mjd: values[k].mjd,
                band: summaries[k].band.clone(),
                five_sigma_depth: values[k].depth,
                seeing_fwhm: template.seeing_fwhm,
                exposure_time: values[k].exposure_time,
                airmass: template.airmass,
                sky_brightness: template.sky_brightness,
                night: values[k].mjd.floor_to_i64(),
            },
        );
    }
    let mut table = MagTable::new();
    for k in 0..summaries.len()
        invariant
            keys@ == value_times(values@),
            is_stable_order(keys@, order@),
            order@ == order_of(keys@),
            summaries@.len() == values@.len(),
            table.wf(),
            forall|b: Seq<char>| #[trigger]
                table@.contains_key(b) <==> exists|j: int|
                    0 <= j < k && (#[trigger] summaries@[j]).band@ == b,
            forall|b: Seq<char>| #[trigger]
                table@.contains_key(b) ==> table@[b] == stacked_row(summaries@, values@, b),
    {
        let ghost before = table@;
        let band = &summaries[k].band;
        if table.get(band).is_none() {
            let row = band_row(summaries, values, &order, band);
            table.extend(band, &row);
        }
        assert forall|b: Seq<char>| #[trigger] table@.contains_key(b) <==> exists|j: int|
            0 <= j < k + 1 && (#[trigger] summaries@[j]).band@ == b by {
            if table@.contains_key(b) {
                if before.contains_key(b) {
                    let j = choose|j: int| 0 <= j < k && (#[trigger] summaries@[j]).band@ == b;
                    assert(summaries@[j].band@ == b);
                } else {
                    assert(summaries@[k as int].band@ == b);
                }
            }
        }
    }
    let times_mjd = observation_times(&stacked);
    Some(
        StackedSeries {
            observations: stacked,
            evaluation: LightcurveEvaluation { apparent_mags: table, times_mjd },
        },
    )
}

/// The magnitudes of one band over all bins in the given order.
fn band_row(
    summaries: &Vec<BinSummary>,
    values: &Vec<StackedValues>,
    order: &Vec<usize>,
    band: &String,
) -> (row: Vec<Double>)
    requires
        summaries@.len() == values@.len(),
        is_stable_order(value_times(values@), order@),
        order@ == order_of(value_times(values@)),
    ensures
        row@ == stacked_row(summaries@, values@, band@),
{
    let mut row: Vec<Double> = Vec::new();
    for p in 0..order.len()
        invariant
            summaries@.len() == values@.len(),
            is_stable_order(value_times(values@), order@),
            order@ == order_of(value_times(values@)),
            row@.len() == p,
            forall|q: int|
                0 <= q < p ==> #[trigger] row@[q] == stacked_row(summaries@, values@, band@)[q],
    {
        let k: usize = order[p];
        if summaries[k].band == *band && summaries[k].usable_mags.len() > 0 {
            row.push(values[k].magnitude);
        } else {
            row.push(Double { bits: NINETY_NINE_BITS });
        }
    }
    assert(row@ =~= stacked_row(summaries@, values@, band@));
    row
}

/// A run of the stacking: the bins of the evaluated bands, their summaries and the averages
/// that came back for them.
pub open spec fn is_run<L: Fn(Double, Double) -> Double, C: Fn(&BinSummary) -> StackedValues>(
    elapsed: &L,
    average: &C,
    window: Double,
    list: Seq<ObservationView>,
    mags: Map<Seq<char>, Seq<Double>>,
    stacks: Seq<BandStack>,
    summaries: Seq<BinSummary>,
    values: Seq<StackedValues>,
) -> bool {
    &&& is_plan(elapsed, window, list, mags, stacks)
    &&& are_summaries(list, mags, bin_list(stacks), summaries)
    &&& are_averages(average, summaries, values)
}

/// `series` is what stacking can give.
pub open spec fn is_stack_outcome<
    L: Fn(Double, Double) -> Double,
    C: Fn(&BinSummary) -> StackedValues,
>(
    elapsed: &L,
    average: &C,
    window: Double,
    eval: &LightcurveEvaluation,
    raw_obs: Seq<SurveyObservation>,
    series: StackedSeries,
) -> bool {
    let list = observations(raw_obs);
    if raw_obs.len() < 2 {
        is_unstacked(eval, raw_obs, series)
    } else {
        &&& bands_comparable(list)
        &&& exists|
            stacks: Seq<BandStack>,
            summaries: Seq<BinSummary>,
            values: Seq<StackedValues>,
        | #[trigger]
            is_run(elapsed, average, window, list, eval.apparent_mags@, stacks, summaries, values)
                && depths_comparable(list, bin_list(stacks)) && comparable(value_times(values))
                && is_stacked(list, summaries, values, series)
    }
}

/// Stacking can meet values that cannot be put in order: times within a band, depths within a
/// bin, or the times of averaged bins.
pub open spec fn is_stack_refusal<
    L: Fn(Double, Double) -> Double,
    C: Fn(&BinSummary) -> StackedValues,
>(
    elapsed: &L,
    average: &C,
    window: Double,
    eval: &LightcurveEvaluation,
    raw_obs: Seq<SurveyObservation>,
) -> bool {
    let list = observations(raw_obs);
    &&& raw_obs.len() >= 2
    &&& {
        ||| !bands_comparable(list)
        ||| exists|stacks: Seq<BandStack>| #[trigger]
            is_plan(elapsed, window, list, eval.apparent_mags@, stacks) && !depths_comparable(
                list,
                bin_list(stacks),
            )
        ||| exists|
            stacks: Seq<BandStack>,
            summaries: Seq<BinSummary>,
            values: Seq<StackedValues>,
        | #[trigger]
            is_run(elapsed, average, window, list, eval.apparent_mags@, stacks, summaries, values)
                && !comparable(value_times(values))
    }
}

/// Stacks the exposures of each band that lie close together.
///
/// In each band that the model evaluated, the exposures are taken in order of time and cut into
/// bins; a new bin starts with an exposure whose time since the opening of the bin, which `elapsed`
/// gives, exceeds the window, or where one of the two is no number. `average` turns a bin into one
/// measurement. Fewer than two exposures are left as they are.
///
/// There is no answer when times or depths that have to be put in order cannot be.
pub fn stack_flux_average<L: Fn(Double, Double) -> Double, C: Fn(&BinSummary) -> StackedValues>(
    eval: &LightcurveEvaluation,
    raw_obs: &Vec<SurveyObservation>,
    window_days: Double,
    elapsed: &L,
    average: &C,
) -> (res: Option<StackedSeries>)
    requires
        eval.apparent_mags.wf(),
        forall|t: Double, start: Double| call_requires(*elapsed, (t, start)),
        forall|summary: BinSummary| call_requires(*average, (&summary,)),
    ensures
        match res {
            Some(series) => is_stack_outcome(elapsed, average, window_days, eval, raw_obs@, series),
            None => is_stack_refusal(elapsed, average, window_days, eval, raw_obs@),
        },
{
    if raw_obs.len() < 2 {
        return Some(unstacked(eval, raw_obs));
    }
    match plan_bins(raw_obs, &eval.apparent_mags, window_days, elapsed) {
        None => None,
        Some(stacks) => {
            proof {
                lemma_plan_bins(elapsed, window_days, observations(raw_obs@), eval.apparent_mags@, stacks@);
            }
            match summarize_bins(raw_obs, &eval.apparent_mags, &stacks) {
                None => None,
                Some(summaries) => {
                    let values = average_bins(&summaries, average);
                    assert(is_run(
                        elapsed,
                        average,
                        window_days,
                        observations(raw_obs@),
                        eval.apparent_mags@,
                        stacks@,
                        summaries@,
                        values@,
                    ));
                    assert forall|k: int| 0 <= k < summaries@.len() implies (
                    #[trigger] summaries@[k]).members@.len() > 0 && summaries@[k].members@[0]
                        < raw_obs@.len() by {
                        assert(is_bin(raw_obs@.len(), bin_list(stacks@)[k]));
                        assert(bin_list(stacks@)[k].1[0] < raw_obs@.len());
                    }
                    assemble_stack(raw_obs, &summaries, &values)
                },
            }
        },
    }
}

/// `series` is the exposures and magnitudes as they were given.
pub open spec fn is_unstacked(
    eval: &LightcurveEvaluation,
    list: Seq<SurveyObservation>,
    series: StackedSeries,
) -> bool {
    &&& series.observations@ == list
    &&& series.evaluation.apparent_mags.wf()
    &&& series.evaluation.apparent_mags@ == eval.apparent_mags@
    &&& series.evaluation.times_mjd@ == eval.times_mjd@
}

/// The exposures and magnitudes as they were given.
pub fn unstacked(eval: &LightcurveEvaluation, list: &Vec<SurveyObservation>) -> (series: StackedSeries)
    requires
        eval.apparent_mags.wf(),
    ensures
        is_unstacked(eval, list@, series),
{
    let times_mjd = copy_doubles(&eval.times_mjd);
    let apparent_mags = eval.apparent_mags.copy();
    StackedSeries {
        observations: copy_observations(list),
        evaluation: LightcurveEvaluation { apparent_mags, times_mjd },
    }
}

/// The bins of a plan have members among the exposures, and their bands are evaluated.
pub(crate) proof fn lemma_plan_bins<L: Fn(Double, Double) -> Double>(
    elapsed: &L,
    window: Double,
    list: Seq<ObservationView>,
    mags: Map<Seq<char>, Seq<Double>>,
    stacks: Seq<BandStack>,
)
    requires
        list.len() <= usize::MAX,
        bands_comparable(list),
        is_plan(elapsed, window, list, mags, stacks),
    ensures
        are_bins(list.len(), mags, bin_list(stacks)),
{
    let names = bands(list);
    assert forall|g: int| 0 <= g < stacks.len() implies stack_is_sound(
        list.len(),
        mags,
        #[trigger] stacks[g],
    ) by {
        let band = stacks[g].band@;
        lemma_evaluated_bands(names, mags);
        assert(evaluated_bands(names, mags)[g] == band);
        assert(evaluated_bands(names, mags).contains(band));
        let members = band_members(names, band);
        lemma_band_members(names, band);
        let keys = member_times(list, members);
        assert(comparable(keys));
        lemma_order_exists(keys);
        let sorted = by_time(list, members);
        assert forall|k: int, i: int|
            0 <= k < stacks[g].bins@.len() && 0 <= i < stacks[g].bins@[k]@.len() implies
            #[trigger] stacks[g].bins@[k]@[i] < list.len() by {
            lemma_joined(stacks[g].bins@, k, i);
            let j = choose|j: int| 0 <= j < sorted.len() && sorted[j] == stacks[g].bins@[k]@[i];
            assert(is_stable_order(keys, order_of(keys)));
            assert(order_of(keys)[j] < members.len());
            assert(sorted[j] == members[order_of(keys)[j] as int]);
        }
    }
    lemma_sound_stacks(list.len(), mags, stacks);
}

/// The bins of a stack have members among `count` exposures, and its band has magnitudes.
spec fn stack_is_sound(count: nat, mags: Map<Seq<char>, Seq<Double>>, stack: BandStack) -> bool {
    &&& mags.contains_key(stack.band@)
    &&& forall|k: int| 0 <= k < stack.bins@.len() ==> (#[trigger] stack.bins@[k])@.len() > 0
    &&& forall|k: int, i: int|
        0 <= k < stack.bins@.len() && 0 <= i < stack.bins@[k]@.len() ==> #[trigger] stack.bins@[k]@[i]
            < count
}

proof fn lemma_sound_stacks(
    count: nat,
    mags: Map<Seq<char>, Seq<Double>>,
    stacks: Seq<BandStack>,
)
    requires
        forall|g: int|
            0 <= g < stacks.len() ==> stack_is_sound(count, mags, #[trigger] stacks[g]),
    ensures
        are_bins(count, mags, bin_list(stacks)),
    decreases stacks.len(),
{
    if stacks.len() > 0 {
        let rest = stacks.drop_last();
        lemma_sound_stacks(count, mags, rest);
        let last = stacks.last();
        assert(stack_is_sound(count, mags, stacks[stacks.len() - 1]));
        assert forall|k: int| 0 <= k < bin_list(stacks).len() implies is_bin(
            count,
            #[trigger] bin_list(stacks)[k],
        ) && mags.contains_key(bin_list(stacks)[k].0) by {
            if k < bin_list(rest).len() {
                assert(bin_list(stacks)[k] == bin_list(rest)[k]);
            } else {
                let i = k - bin_list(rest).len();
                assert(bin_list(stacks)[k] == (last.band@, last.bins@[i]@));
            }
        }
    }
}

} // verus!
