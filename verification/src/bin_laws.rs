//! What a stacked measurement is made of.
use vstd::arithmetic::power2::pow2;
use vstd::prelude::*;
use vstd::set_lib::{lemma_int_range, lemma_len_subset, set_int_range};

use crate::binning::{
    answers, band_members, bands_comparable, by_time, evaluated_bands, is_plan, joined,
    lemma_band_members, lemma_evaluated_bands, member_times, BandStack,
};
use crate::double::{
    law_named_values, law_order_is_numeric, Double, INFINITE_MAGNITUDE, NINETY_BITS,
    NINETY_NINE_BITS, SIGN_WEIGHT,
};
use crate::order::{
    comparable, is_stable_order, lemma_order_covers, lemma_order_exists, order_of, precedes,
};
use crate::stacking::{
    are_summaries, bin_list, depths_comparable, is_run, is_stack_outcome, is_stacked,
    is_summary, lemma_bin_list_at, member_depths, middles, stacked_observation,
    stacked_row, usable, value_times, BinSummary, StackedSeries, StackedValues,
};
use crate::stacking_laws::{
    bin_at, is_member, law_bins_cover, law_bins_disjoint, lemma_bin_at, lemma_bin_at_injective,
    lemma_by_time, lemma_joined_split, lemma_place,
};
use crate::survey::{
    bands, observations, EvaluationView, LightcurveEvaluation, ObservationView, SurveyObservation,
};

verus! {

/// A magnitude that the model really predicts: a number below 90.
pub open spec fn is_predicted(mag: Double) -> bool {
    mag.bits == INFINITE_MAGNITUDE + SIGN_WEIGHT || (mag.finite() && mag.value() < 90 * pow2(1074))
}

/// `picked` are the magnitudes of the members at the given places, which ascend and are all those at
/// which the model predicts a magnitude.
pub open spec fn are_predictions(
    row: Seq<Double>,
    members: Seq<usize>,
    places: Seq<int>,
    picked: Seq<Double>,
) -> bool {
    &&& picked.len() == places.len()
    &&& forall|j: int|
        0 <= j < places.len() ==> {
            &&& 0 <= (#[trigger] places[j]) < members.len()
            &&& members[places[j]] < row.len()
            &&& is_predicted(row[members[places[j]] as int])
            &&& picked[j] == row[members[places[j]] as int]
        }
    &&& forall|i: int, j: int|
        0 <= i < j < places.len() ==> (#[trigger] places[i]) < (#[trigger] places[j])
    &&& forall|q: int|
        0 <= q < members.len() && (#[trigger] members[q]) < row.len() && is_predicted(
            row[members[q] as int],
        ) ==> places.contains(q)
}

proof fn lemma_predicted(mag: Double)
    ensures
        mag.below(Double { bits: NINETY_BITS }) <==> is_predicted(mag),
{
    law_named_values();
    if mag.finite() {
        law_order_is_numeric(mag, Double { bits: NINETY_BITS });
    }
}

proof fn lemma_usable(row: Seq<Double>, members: Seq<usize>) -> (places: Seq<int>)
    ensures
        are_predictions(row, members, places, usable(row, members)),
    decreases members.len(),
{
    if members.len() == 0 {
        Seq::empty()
    } else {
        let rest = members.drop_last();
        let before = lemma_usable(row, rest);
        let last = members.len() - 1;
        let p = members.last();
        if p < row.len() {
            lemma_predicted(row[p as int]);
        }
        let places = if p < row.len() && is_predicted(row[p as int]) {
            before.push(last as int)
        } else {
            before
        };
        let picked = usable(row, members);
        assert forall|j: int| 0 <= j < places.len() implies {
            &&& 0 <= (#[trigger] places[j]) < members.len()
            &&& members[places[j]] < row.len()
            &&& is_predicted(row[members[places[j]] as int])
            &&& picked[j] == row[members[places[j]] as int]
        } by {
            if j < before.len() {
                assert(places[j] == before[j]);
                assert(rest[before[j]] == members[before[j]]);
            }
        }
        assert forall|q: int|
            0 <= q < members.len() && (#[trigger] members[q]) < row.len() && is_predicted(
                row[members[q] as int],
            ) implies places.contains(q) by {
            if q < last {
                assert(rest[q] == members[q]);
                assert(before.contains(q));
                let j = choose|j: int| 0 <= j < before.len() && before[j] == q;
                assert(places[j] == q);
            } else {
                assert(places[before.len() as int] == q);
            }
        }
        places
    }
}

/// The magnitudes that a bin is averaged from are those of all its members that the model predicts
/// a magnitude for, one for each, in the order of the members.
pub proof fn law_all_predictions_are_averaged(
    list: Seq<ObservationView>,
    mags: Map<Seq<char>, Seq<Double>>,
    bin: (Seq<char>, Seq<usize>),
    summary: BinSummary,
)
    requires
        is_summary(list, mags, bin, summary),
    ensures
        exists|places: Seq<int>|
            are_predictions(mags[bin.0], bin.1, places, summary.usable_mags@),
        (forall|q: int|
            0 <= q < bin.1.len() ==> (#[trigger] bin.1[q]) < mags[bin.0].len() && is_predicted(
                mags[bin.0][bin.1[q] as int],
            )) ==> summary.usable_mags@.len() == bin.1.len() && forall|q: int|
            0 <= q < bin.1.len() ==> summary.usable_mags@[q] == mags[bin.0][#[trigger] bin.1[q] as int],
        summary.usable_mags@.len() == 0 <==> forall|q: int|
            0 <= q < bin.1.len() && (#[trigger] bin.1[q]) < mags[bin.0].len() ==> !is_predicted(
                mags[bin.0][bin.1[q] as int],
            ),
{
    let row = mags[bin.0];
    let members = bin.1;
    let places = lemma_usable(row, members);
    assert(are_predictions(row, members, places, summary.usable_mags@));
    if forall|q: int|
        0 <= q < members.len() ==> (#[trigger] members[q]) < row.len() && is_predicted(
            row[members[q] as int],
        ) {
        lemma_every_usable(row, members);
    }
    if summary.usable_mags@.len() == 0 {
        assert forall|q: int| 0 <= q < members.len() && (#[trigger] members[q]) < row.len() implies !is_predicted(
            row[members[q] as int],
        ) by {
            if is_predicted(row[members[q] as int]) {
                assert(places.contains(q));
            }
        }
    } else {
        assert(is_predicted(row[members[places[0]] as int]));
    }
}

proof fn lemma_every_usable(row: Seq<Double>, members: Seq<usize>)
    requires
        forall|q: int|
            0 <= q < members.len() ==> (#[trigger] members[q]) < row.len() && is_predicted(
                row[members[q] as int],
            ),
    ensures
        usable(row, members).len() == members.len(),
        forall|q: int|
            0 <= q < members.len() ==> usable(row, members)[q] == row[#[trigger] members[q] as int],
    decreases members.len(),
{
    if members.len() > 0 {
        let rest = members.drop_last();
        assert forall|q: int| 0 <= q < rest.len() implies (#[trigger] rest[q]) < row.len()
            && is_predicted(row[rest[q] as int]) by {
            assert(rest[q] == members[q]);
        }
        lemma_every_usable(row, rest);
        assert(members[members.len() - 1] < row.len());
        lemma_predicted(row[members.last() as int]);
        assert forall|q: int| 0 <= q < members.len() implies usable(row, members)[q]
            == row[#[trigger] members[q] as int] by {
            if q < rest.len() {
                assert(rest[q] == members[q]);
                assert(usable(row, rest)[q] == row[rest[q] as int]);
            }
        }
    }
}

/// The places of the values that are at most `x`.
pub open spec fn at_or_below(values: Seq<Double>, x: Double) -> Set<int> {
    set_int_range(0, values.len() as int).filter(|i: int| values[i].at_most(x))
}

/// The places of the values that `x` is at most.
pub open spec fn at_or_above(values: Seq<Double>, x: Double) -> Set<int> {
    set_int_range(0, values.len() as int).filter(|i: int| x.at_most(values[i]))
}

/// `lower` and `upper` are the two middle values: each is one of the values, and no half of the
/// values lies beyond it. Of an odd number of values they are the same.
pub open spec fn are_middle(values: Seq<Double>, lower: Double, upper: Double) -> bool {
    let n = values.len() as int;
    &&& values.contains(lower)
    &&& values.contains(upper)
    &&& n % 2 == 1 ==> lower == upper
    &&& n >= 2 ==> {
        &&& at_or_below(values, lower).len() >= (n + 1) / 2
        &&& at_or_above(values, lower).len() >= n / 2 + 1
        &&& at_or_below(values, upper).len() >= n / 2 + 1
        &&& at_or_above(values, upper).len() >= (n + 1) / 2
    }
}

/// The value at place `m` of the order has `m` values before it and all others after it.
proof fn lemma_middle(values: Seq<Double>, order: Seq<usize>, m: int)
    requires
        is_stable_order(values, order),
        forall|i: int| 0 <= i < values.len() ==> !(#[trigger] values[i]).nan(),
        0 <= m < values.len(),
    ensures
        values.contains(values[order[m] as int]),
        at_or_below(values, values[order[m] as int]).len() >= m + 1,
        at_or_above(values, values[order[m] as int]).len() >= values.len() - m,
{
    let n = values.len() as int;
    let x = values[order[m] as int];
    lemma_int_range(0, n);
    let front = Seq::new((m + 1) as nat, |i: int| order[i] as int);
    let back = Seq::new((n - m) as nat, |i: int| order[m + i] as int);
    assert(front.no_duplicates()) by {
        assert forall|i: int, j: int| 0 <= i < front.len() && 0 <= j < front.len() && i != j implies
            front[i] != front[j] by {
            if i < j {
                assert(precedes(values, order[i] as int, order[j] as int));
            } else {
                assert(precedes(values, order[j] as int, order[i] as int));
            }
        }
    }
    assert(back.no_duplicates()) by {
        assert forall|i: int, j: int| 0 <= i < back.len() && 0 <= j < back.len() && i != j implies
            back[i] != back[j] by {
            if i < j {
                assert(precedes(values, order[m + i] as int, order[m + j] as int));
            } else {
                assert(precedes(values, order[m + j] as int, order[m + i] as int));
            }
        }
    }
    front.unique_seq_to_set();
    back.unique_seq_to_set();
    assert(front.to_set().subset_of(at_or_below(values, x))) by {
        assert forall|q: int| front.to_set().contains(q) implies at_or_below(values, x).contains(q) by {
            let i = choose|i: int| 0 <= i < front.len() && front[i] == q;
            if i < m {
                assert(precedes(values, order[i] as int, order[m] as int));
            }
            assert(!values[q].nan() && !x.nan());
        }
    }
    assert(back.to_set().subset_of(at_or_above(values, x))) by {
        assert forall|q: int| back.to_set().contains(q) implies at_or_above(values, x).contains(q) by {
            let i = choose|i: int| 0 <= i < back.len() && back[i] == q;
            if i > 0 {
                assert(precedes(values, order[m] as int, order[m + i] as int));
            }
            assert(!values[q].nan() && !x.nan());
        }
    }
    lemma_len_subset(front.to_set(), at_or_below(values, x));
    lemma_len_subset(back.to_set(), at_or_above(values, x));
}

/// The depth of a bin lies in the middle of the depths of its members.
pub proof fn law_middle_depths(
    list: Seq<ObservationView>,
    mags: Map<Seq<char>, Seq<Double>>,
    bin: (Seq<char>, Seq<usize>),
    summary: BinSummary,
)
    requires
        0 < bin.1.len() <= usize::MAX,
        comparable(member_depths(list, bin.1)),
        is_summary(list, mags, bin, summary),
    ensures
        are_middle(
            Seq::new(bin.1.len(), |i: int| list[bin.1[i] as int].five_sigma_depth),
            summary.lower_depth,
            summary.upper_depth,
        ),
{
    let values = Seq::new(bin.1.len(), |i: int| list[bin.1[i] as int].five_sigma_depth);
    assert(values =~= member_depths(list, bin.1));
    let n = values.len() as int;
    lemma_order_exists(values);
    let order = order_of(values);
    assert(middles(values) == (summary.lower_depth, summary.upper_depth));
    if n >= 2 {
        lemma_middle(values, order, (n - 1) / 2);
        lemma_middle(values, order, n / 2);
    } else {
        assert(order[0] == 0);
        assert(values[0] == summary.lower_depth);
    }
}

/// The time from one exposure to another can be at most the window.
pub open spec fn can_be_within<L: Fn(Double, Double) -> Double>(
    elapsed: &L,
    window: Double,
    t: Double,
    start: Double,
) -> bool {
    exists|time: Double| #[trigger]
        call_ensures(*elapsed, (t, start), time) && time.at_most(window)
}

/// The time from one exposure to another can be other than at most the window.
pub open spec fn can_be_beyond<L: Fn(Double, Double) -> Double>(
    elapsed: &L,
    window: Double,
    t: Double,
    start: Double,
) -> bool {
    exists|time: Double| #[trigger]
        call_ensures(*elapsed, (t, start), time) && !time.at_most(window)
}

/// A bin holds exposures of one evaluated band, in order of time and those of one time in their
/// given order, none of them further from the
/// first than the window, and its summary says of them what an average needs: their times, the
/// magnitudes that the model predicts, the middle of their depths, and how long the first was
/// exposed.
pub open spec fn is_sound_bin<L: Fn(Double, Double) -> Double>(
    elapsed: &L,
    window: Double,
    list: Seq<ObservationView>,
    mags: Map<Seq<char>, Seq<Double>>,
    bin: BinSummary,
) -> bool {
    let members = bin.members@;
    &&& members.len() > 0
    &&& mags.contains_key(bin.band@)
    &&& forall|i: int|
        0 <= i < members.len() ==> (#[trigger] members[i]) < list.len()
            && list[members[i] as int].band == bin.band@
    &&& bin.mjds@.len() == members.len()
    &&& forall|i: int|
        0 <= i < members.len() ==> #[trigger] bin.mjds@[i] == list[members[i] as int].mjd
    &&& forall|i: int, j: int|
        0 <= i < j < members.len() ==> !(#[trigger] bin.mjds@[j]).below(#[trigger] bin.mjds@[i])
            && (bin.mjds@[i] == bin.mjds@[j] ==> members[i] < members[j])
    &&& forall|i: int|
        1 <= i < members.len() ==> can_be_within(
            elapsed,
            window,
            #[trigger] bin.mjds@[i],
            bin.mjds@[0],
        )
    &&& exists|places: Seq<int>|
        are_predictions(mags[bin.band@], members, places, bin.usable_mags@)
    &&& are_middle(
        Seq::new(members.len(), |i: int| list[members[i] as int].five_sigma_depth),
        bin.lower_depth,
        bin.upper_depth,
    )
    &&& bin.exposure_time == list[members[0] as int].exposure_time
}

/// Exposure `p` is member `i` of bin `k`.
pub open spec fn is_in_bin(bins: Seq<BinSummary>, k: int, i: int, p: int) -> bool {
    &&& 0 <= k < bins.len()
    &&& 0 <= i < bins[k].members@.len()
    &&& bins[k].members@[i] == p
}

/// The exposures of the evaluated bands are in one bin each, and no other exposure is in any.
pub open spec fn is_division(
    list: Seq<ObservationView>,
    mags: Map<Seq<char>, Seq<Double>>,
    bins: Seq<BinSummary>,
) -> bool {
    &&& forall|p: int|
        0 <= p < list.len() ==> (mags.contains_key((#[trigger] list[p]).band) <==> exists|
            k: int,
            i: int,
        |
            is_in_bin(bins, k, i, p))
    &&& forall|p: int, k: int, i: int, l: int, j: int| #[trigger]
        is_in_bin(bins, k, i, p) && #[trigger] is_in_bin(bins, l, j, p) ==> k == l && i == j
}

/// A bin that follows another of its band was opened by an exposure beyond the window of the other.
pub open spec fn are_apart<L: Fn(Double, Double) -> Double>(
    elapsed: &L,
    window: Double,
    bins: Seq<BinSummary>,
) -> bool {
    forall|k: int|
        1 <= k < bins.len() && (#[trigger] bins[k]).band@ == bins[k - 1].band@ ==> can_be_beyond(
            elapsed,
            window,
            bins[k].mjds@[0],
            bins[k - 1].mjds@[0],
        )
}

/// A stacked exposure stands for a bin: time, depth and exposure time are the averages, the night is
/// that of the time, the band is that of the bin, and the rest is that of the first member.
pub open spec fn stands_for(
    list: Seq<ObservationView>,
    bin: BinSummary,
    value: StackedValues,
    stacked: ObservationView,
) -> bool {
    let first = list[bin.members@[0] as int];
    &&& stacked.mjd == value.mjd
    &&& stacked.five_sigma_depth == value.depth
    &&& stacked.exposure_time == value.exposure_time
    &&& stacked.night == value.mjd.floored()
    &&& stacked.band == bin.band@
    &&& stacked.ra == first.ra
    &&& stacked.dec == first.dec
    &&& stacked.seeing_fwhm == first.seeing_fwhm
    &&& stacked.airmass == first.airmass
    &&& stacked.sky_brightness == first.sky_brightness
}

/// Stacked exposure `p` stands for the bin that it is numbered by. Its magnitude in its own band is
/// the average, or 99 if nothing was averaged; in every other band it is 99.
pub open spec fn is_bin_exposure(
    list: Seq<ObservationView>,
    bins: Seq<BinSummary>,
    values: Seq<StackedValues>,
    stacked: Seq<ObservationView>,
    evaluation: EvaluationView,
    p: int,
) -> bool {
    let k = stacked[p].obs_id as int;
    &&& k < bins.len()
    &&& stands_for(list, bins[k], values[k], stacked[p])
    &&& evaluation.times[p] == values[k].mjd
    &&& evaluation.mags.contains_key(stacked[p].band)
    &&& bins[k].usable_mags@.len() > 0 ==> evaluation.mags[stacked[p].band][p]
        == values[k].magnitude
    &&& bins[k].usable_mags@.len() == 0 ==> evaluation.mags[stacked[p].band][p] == (Double {
        bits: NINETY_NINE_BITS,
    })
    &&& forall|b: Seq<char>| #[trigger]
        evaluation.mags.contains_key(b) && b != stacked[p].band ==> evaluation.mags[b][p] == (
        Double { bits: NINETY_NINE_BITS })
}

/// Some stacked exposure is numbered by bin `k`.
pub open spec fn has_exposure(stacked: Seq<ObservationView>, k: int) -> bool {
    exists|p: int| 0 <= p < stacked.len() && (#[trigger] stacked[p]).obs_id == k
}

/// There is one stacked exposure for each bin, in order of time and those of one time in the order
/// of the bins.
pub open spec fn is_one_for_each_bin(
    list: Seq<ObservationView>,
    bins: Seq<BinSummary>,
    values: Seq<StackedValues>,
    series: StackedSeries,
) -> bool {
    let stacked = observations(series.observations@);
    &&& stacked.len() == bins.len()
    &&& forall|p: int|
        0 <= p < stacked.len() ==> #[trigger] is_bin_exposure(
            list,
            bins,
            values,
            stacked,
            series.evaluation@,
            p,
        )
    &&& forall|p: int, q: int|
        0 <= p < q < stacked.len() ==> {
            &&& (#[trigger] stacked[p]).obs_id != (#[trigger] stacked[q]).obs_id
            &&& !stacked[q].mjd.below(stacked[p].mjd)
            &&& stacked[p].mjd == stacked[q].mjd ==> stacked[p].obs_id < stacked[q].obs_id
        }
    &&& forall|k: int| 0 <= k < bins.len() ==> #[trigger] has_exposure(stacked, k)
}

/// Assembling a stack gives one exposure for each bin.
pub proof fn law_one_exposure_for_each_bin(
    list: Seq<ObservationView>,
    bins: Seq<BinSummary>,
    values: Seq<StackedValues>,
    series: StackedSeries,
)
    requires
        bins.len() == values.len() <= usize::MAX,
        comparable(value_times(values)),
        is_stacked(list, bins, values, series),
    ensures
        is_one_for_each_bin(list, bins, values, series),
{
    let keys = value_times(values);
    lemma_order_exists(keys);
    let order = order_of(keys);
    let stacked = observations(series.observations@);
    let table = series.evaluation@.mags;
    assert forall|p: int| 0 <= p < stacked.len() implies #[trigger] is_bin_exposure(
        list,
        bins,
        values,
        stacked,
        series.evaluation@,
        p,
    ) by {
        let k = order[p] as int;
        assert(0 <= k < values.len());
        assert(stacked[p] == stacked_observation(list, bins, values, k));
        assert(stacked[p].obs_id == k);
        assert(bins[k].band@ == stacked[p].band);
        assert(table.contains_key(stacked[p].band));
        assert(table[stacked[p].band] == stacked_row(bins, values, stacked[p].band));
        lemma_floored_fits(values[k].mjd);
        assert(stands_for(list, bins[k], values[k], stacked[p]));
        assert forall|b: Seq<char>| #[trigger]
            table.contains_key(b) && b != stacked[p].band implies table[b][p] == (Double {
            bits: NINETY_NINE_BITS,
        }) by {
            assert(table[b] == stacked_row(bins, values, b));
        }
    }
    assert forall|p: int, q: int| 0 <= p < q < stacked.len() implies {
        &&& (#[trigger] stacked[p]).obs_id != (#[trigger] stacked[q]).obs_id
        &&& !stacked[q].mjd.below(stacked[p].mjd)
        &&& stacked[p].mjd == stacked[q].mjd ==> stacked[p].obs_id < stacked[q].obs_id
    } by {
        assert(precedes(keys, order[p] as int, order[q] as int));
        assert(stacked[p] == stacked_observation(list, bins, values, order[p] as int));
        assert(stacked[q] == stacked_observation(list, bins, values, order[q] as int));
    }
    assert forall|k: int| 0 <= k < bins.len() implies #[trigger] has_exposure(stacked, k) by {
        lemma_order_covers(keys, order, k);
        let p = choose|p: int| 0 <= p < order.len() && #[trigger] order[p] == k;
        assert(stacked[p] == stacked_observation(list, bins, values, order[p] as int));
        assert(stacked[p].obs_id == k);
    }
}

proof fn lemma_floored_fits(x: Double)
    ensures
        i64::MIN <= x.floored() <= i64::MAX,
{
}

/// Stacking two or more exposures divides those of the evaluated bands into bins that fit the
/// window, averages every bin from what is said of its members, and gives one exposure for each.
pub proof fn law_stack_explained<
    L: Fn(Double, Double) -> Double,
    C: Fn(&BinSummary) -> StackedValues,
>(
    elapsed: &L,
    average: &C,
    window: Double,
    eval: &LightcurveEvaluation,
    raw_obs: Seq<SurveyObservation>,
    series: StackedSeries,
)
    requires
        2 <= raw_obs.len() <= usize::MAX,
        is_stack_outcome(elapsed, average, window, eval, raw_obs, series),
    ensures
        exists|bins: Seq<BinSummary>, values: Seq<StackedValues>|
            is_explained(
                elapsed,
                average,
                window,
                observations(raw_obs),
                eval.apparent_mags@,
                bins,
                values,
                series,
            ),
{
    let list = observations(raw_obs);
    let mags = eval.apparent_mags@;
    let (stacks, bins, values) = choose|
        stacks: Seq<BandStack>,
        bins: Seq<BinSummary>,
        values: Seq<StackedValues>,
    | #[trigger]
        is_run(elapsed, average, window, list, mags, stacks, bins, values) && depths_comparable(
            list,
            bin_list(stacks),
        ) && comparable(value_times(values)) && is_stacked(list, bins, values, series);
    assert(series.observations.len() == values.len());
    law_one_exposure_for_each_bin(list, bins, values, series);
    assert forall|k: int| 0 <= k < bins.len() implies is_sound_bin(
        elapsed,
        window,
        list,
        mags,
        #[trigger] bins[k],
    ) by {
        lemma_sound_bin(elapsed, window, list, mags, stacks, bins, k);
    }
    lemma_division(elapsed, window, list, mags, stacks, bins);
    assert(are_apart(elapsed, window, bins)) by {
        assert forall|k: int|
            1 <= k < bins.len() && (#[trigger] bins[k]).band@ == bins[k - 1].band@ implies can_be_beyond(
            elapsed,
            window,
            bins[k].mjds@[0],
            bins[k - 1].mjds@[0],
        ) by {
            lemma_apart(elapsed, window, list, mags, stacks, bins, k);
        }
    }
    assert(is_explained(elapsed, average, window, list, mags, bins, values, series));
}

/// A stack is explained by its bins and their averages.
pub open spec fn is_explained<
    L: Fn(Double, Double) -> Double,
    C: Fn(&BinSummary) -> StackedValues,
>(
    elapsed: &L,
    average: &C,
    window: Double,
    list: Seq<ObservationView>,
    mags: Map<Seq<char>, Seq<Double>>,
    bins: Seq<BinSummary>,
    values: Seq<StackedValues>,
    series: StackedSeries,
) -> bool {
    &&& forall|k: int|
        0 <= k < bins.len() ==> is_sound_bin(elapsed, window, list, mags, #[trigger] bins[k])
    &&& is_division(list, mags, bins)
    &&& are_apart(elapsed, window, bins)
    &&& values.len() == bins.len()
    &&& forall|k: int|
        0 <= k < bins.len() ==> call_ensures(*average, (&bins[k],), #[trigger] values[k])
    &&& is_one_for_each_bin(list, bins, values, series)
}

/// Bin `k` of all bins is bin `at.1` of the stack at `at.0`.
proof fn lemma_bin_of<L: Fn(Double, Double) -> Double>(
    elapsed: &L,
    window: Double,
    list: Seq<ObservationView>,
    mags: Map<Seq<char>, Seq<Double>>,
    stacks: Seq<BandStack>,
    bins: Seq<BinSummary>,
    k: int,
) -> (at: (int, int))
    requires
        list.len() <= usize::MAX,
        bands_comparable(list),
        is_plan(elapsed, window, list, mags, stacks),
        are_summaries(list, mags, bin_list(stacks), bins),
        0 <= k < bins.len(),
    ensures
        at == bin_at(stacks, k),
        0 <= at.0 < stacks.len(),
        0 <= at.1 < stacks[at.0].bins@.len(),
        bins[k].band@ == stacks[at.0].band@,
        bins[k].members@ == stacks[at.0].bins@[at.1]@,
        mags.contains_key(bins[k].band@),
        bands(list).contains(bins[k].band@),
        comparable(member_times(list, band_members(bands(list), bins[k].band@))),
        joined(stacks[at.0].bins@) == by_time(list, band_members(bands(list), bins[k].band@)),
        is_summary(list, mags, (bins[k].band@, bins[k].members@), bins[k]),
{
    lemma_bin_at(stacks, k);
    let at = bin_at(stacks, k);
    assert(is_summary(list, mags, bin_list(stacks)[k], bins[k]));
    lemma_evaluated_bands(bands(list), mags);
    assert(evaluated_bands(bands(list), mags)[at.0] == stacks[at.0].band@);
    assert(evaluated_bands(bands(list), mags).contains(stacks[at.0].band@));
    at
}

proof fn lemma_sound_bin<L: Fn(Double, Double) -> Double>(
    elapsed: &L,
    window: Double,
    list: Seq<ObservationView>,
    mags: Map<Seq<char>, Seq<Double>>,
    stacks: Seq<BandStack>,
    bins: Seq<BinSummary>,
    k: int,
)
    requires
        list.len() <= usize::MAX,
        bands_comparable(list),
        is_plan(elapsed, window, list, mags, stacks),
        are_summaries(list, mags, bin_list(stacks), bins),
        depths_comparable(list, bin_list(stacks)),
        0 <= k < bins.len(),
    ensures
        is_sound_bin(elapsed, window, list, mags, bins[k]),
{
    let (g, i) = lemma_bin_of(elapsed, window, list, mags, stacks, bins, k);
    let band = bins[k].band@;
    let members = bins[k].members@;
    let bin = (band, members);
    let parts = stacks[g].bins@;
    assert(bin_list(stacks)[k] == bin);
    assert(comparable(member_depths(list, bin_list(stacks)[k].1)));
    assert(parts[i]@.len() > 0);
    lemma_by_time(list, band);
    lemma_joined_split(parts, i);
    let base = joined(parts.take(i)).len() as int;
    let sorted = by_time(list, band_members(bands(list), band));
    let keys = member_times(list, band_members(bands(list), band));
    lemma_band_members(bands(list), band);
    lemma_order_exists(keys);
    let order = order_of(keys);
    assert forall|j: int| 0 <= j < members.len() implies (#[trigger] members[j]) < list.len()
        && list[members[j] as int].band == band by {
        assert(parts[i]@[j] == sorted[base + j]);
    }
    assert forall|a: int, b: int| 0 <= a < b < members.len() implies !(
    #[trigger] bins[k].mjds@[b]).below(#[trigger] bins[k].mjds@[a]) && (bins[k].mjds@[a]
        == bins[k].mjds@[b] ==> members[a] < members[b]) by {
        assert(parts[i]@[a] == sorted[base + a]);
        assert(parts[i]@[b] == sorted[base + b]);
        assert(precedes(keys, order[base + a] as int, order[base + b] as int));
        assert(bins[k].mjds@[a] == keys[order[base + a] as int]);
        assert(bins[k].mjds@[b] == keys[order[base + b] as int]);
        let all = band_members(bands(list), band);
        assert(members[a] == all[order[base + a] as int]);
        assert(members[b] == all[order[base + b] as int]);
    }
    assert forall|j: int| 1 <= j < members.len() implies can_be_within(
        elapsed,
        window,
        #[trigger] bins[k].mjds@[j],
        bins[k].mjds@[0],
    ) by {
        assert(answers(elapsed, window, list, parts[i]@[j], parts[i]@[0], true));
        let time = choose|time: Double| #[trigger]
            call_ensures(
                *elapsed,
                (list[members[j] as int].mjd, list[members[0] as int].mjd),
                time,
            ) && true == time.at_most(window);
        assert(call_ensures(*elapsed, (bins[k].mjds@[j], bins[k].mjds@[0]), time));
    }
    law_all_predictions_are_averaged(list, mags, bin, bins[k]);
    assert(bins[k].members.len() == members.len());
    law_middle_depths(list, mags, bin, bins[k]);
}

proof fn lemma_apart<L: Fn(Double, Double) -> Double>(
    elapsed: &L,
    window: Double,
    list: Seq<ObservationView>,
    mags: Map<Seq<char>, Seq<Double>>,
    stacks: Seq<BandStack>,
    bins: Seq<BinSummary>,
    k: int,
)
    requires
        list.len() <= usize::MAX,
        bands_comparable(list),
        is_plan(elapsed, window, list, mags, stacks),
        are_summaries(list, mags, bin_list(stacks), bins),
        1 <= k < bins.len(),
        bins[k].band@ == bins[k - 1].band@,
    ensures
        can_be_beyond(elapsed, window, bins[k].mjds@[0], bins[k - 1].mjds@[0]),
{
    let (g, i) = lemma_bin_of(elapsed, window, list, mags, stacks, bins, k);
    let (h, j) = lemma_bin_of(elapsed, window, list, mags, stacks, bins, k - 1);
    lemma_evaluated_bands(bands(list), mags);
    let listed = evaluated_bands(bands(list), mags);
    assert(listed[g] == listed[h]);
    assert(g == h);
    lemma_neighbours(stacks, k);
    let parts = stacks[g].bins@;
    assert(parts[i]@.len() > 0 && parts[j]@.len() > 0);
    assert(answers(elapsed, window, list, parts[i]@[0], parts[i - 1]@[0], false));
    let time = choose|time: Double| #[trigger]
        call_ensures(
            *elapsed,
            (list[parts[i]@[0] as int].mjd, list[parts[i - 1]@[0] as int].mjd),
            time,
        ) && false == time.at_most(window);
    assert(bins[k].mjds@[0] == list[parts[i]@[0] as int].mjd);
    assert(bins[k - 1].mjds@[0] == list[parts[j]@[0] as int].mjd);
    assert(call_ensures(*elapsed, (bins[k].mjds@[0], bins[k - 1].mjds@[0]), time));
}

/// Neighbours in the list of all bins that belong to one stack are neighbours in the stack.
proof fn lemma_neighbours(stacks: Seq<BandStack>, k: int)
    requires
        1 <= k < bin_list(stacks).len(),
        bin_at(stacks, k).0 == bin_at(stacks, k - 1).0,
    ensures
        bin_at(stacks, k).1 == bin_at(stacks, k - 1).1 + 1,
    decreases stacks.len(),
{
    if stacks.len() > 0 {
        let rest = stacks.drop_last();
        if k < bin_list(rest).len() {
            lemma_neighbours(rest, k);
        } else if k - 1 < bin_list(rest).len() {
            lemma_bin_at(rest, k - 1);
        }
    }
}

proof fn lemma_division<L: Fn(Double, Double) -> Double>(
    elapsed: &L,
    window: Double,
    list: Seq<ObservationView>,
    mags: Map<Seq<char>, Seq<Double>>,
    stacks: Seq<BandStack>,
    bins: Seq<BinSummary>,
)
    requires
        list.len() <= usize::MAX,
        bands_comparable(list),
        is_plan(elapsed, window, list, mags, stacks),
        are_summaries(list, mags, bin_list(stacks), bins),
    ensures
        is_division(list, mags, bins),
{
    assert forall|p: int, k: int, i: int| #[trigger] is_in_bin(bins, k, i, p) implies is_member(
        stacks,
        bin_at(stacks, k).0,
        bin_at(stacks, k).1,
        i,
        p,
    ) && 0 <= p < list.len() by {
        let (g, j) = lemma_bin_of(elapsed, window, list, mags, stacks, bins, k);
        lemma_by_time(list, bins[k].band@);
        lemma_place(stacks[g].bins@, j, i);
    }
    assert forall|p: int| 0 <= p < list.len() implies (mags.contains_key((#[trigger] list[p]).band)
        <==> exists|k: int, i: int| is_in_bin(bins, k, i, p)) by {
        law_bins_cover(elapsed, window, list, mags, stacks, p);
        if mags.contains_key(list[p].band) {
            let (g, j, i) = choose|g: int, j: int, i: int| is_member(stacks, g, j, i, p);
            lemma_bin_list_at(stacks, g);
            let k = bin_list(stacks.take(g)).len() + j;
            assert(bin_list(stacks)[k] == (stacks[g].band@, stacks[g].bins@[j]@));
            assert(is_summary(list, mags, bin_list(stacks)[k], bins[k]));
            assert(is_in_bin(bins, k, i, p));
        }
        if exists|k: int, i: int| is_in_bin(bins, k, i, p) {
            let (k, i) = choose|k: int, i: int| is_in_bin(bins, k, i, p);
            assert(is_member(stacks, bin_at(stacks, k).0, bin_at(stacks, k).1, i, p));
        }
    }
    assert forall|p: int, k: int, i: int, l: int, j: int| #[trigger]
        is_in_bin(bins, k, i, p) && #[trigger] is_in_bin(bins, l, j, p) implies k == l && i == j by {
        let (a, b) = (bin_at(stacks, k), bin_at(stacks, l));
        assert(is_member(stacks, a.0, a.1, i, p));
        assert(is_member(stacks, b.0, b.1, j, p));
        law_bins_disjoint(
            elapsed,
            window,
            list,
            mags,
            stacks,
            p,
            (a.0, a.1, i),
            (b.0, b.1, j),
        );
        lemma_bin_at_injective(stacks, k, l);
    }
}

} // verus!
