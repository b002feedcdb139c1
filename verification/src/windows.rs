//! Stacking at several time windows, all measurements taken together.
use vstd::prelude::*;

use crate::double::Double;
use crate::order::{comparable, is_comparable, is_stable_order, order_of, stable_order};
use crate::stacking::{
    is_stack_outcome, is_stack_refusal, is_unstacked, stack_flux_average, unstacked, BinSummary,
    StackedSeries, StackedValues,
};
use crate::survey::{
    observation_times, observations, times, LightcurveEvaluation, MagTable, ObservationView,
    SurveyObservation,
};

verus! {

/// The exposures of several series one after the other.
pub open spec fn all_observations(parts: Seq<StackedSeries>) -> Seq<ObservationView>
    decreases parts.len(),
{
    if parts.len() == 0 {
        Seq::empty()
    } else {
        all_observations(parts.drop_last()) + observations(parts.last().observations@)
    }
}

/// The evaluation times of several series one after the other.
pub open spec fn all_times(parts: Seq<StackedSeries>) -> Seq<Double>
    decreases parts.len(),
{
    if parts.len() == 0 {
        Seq::empty()
    } else {
        all_times(parts.drop_last()) + parts.last().evaluation.times_mjd@
    }
}

/// The magnitudes of a band, none where the band is missing.
pub open spec fn row(mags: Map<Seq<char>, Seq<Double>>, band: Seq<char>) -> Seq<Double> {
    if mags.contains_key(band) {
        mags[band]
    } else {
        Seq::empty()
    }
}

/// The magnitudes of two tables, band by band one after the other.
pub open spec fn appended(
    first: Map<Seq<char>, Seq<Double>>,
    second: Map<Seq<char>, Seq<Double>>,
) -> Map<Seq<char>, Seq<Double>> {
    Map::new(
        |b: Seq<char>| first.contains_key(b) || second.contains_key(b),
        |b: Seq<char>| row(first, b) + row(second, b),
    )
}

/// The magnitudes of several series, band by band one after the other.
pub open spec fn all_mags(parts: Seq<StackedSeries>) -> Map<Seq<char>, Seq<Double>>
    decreases parts.len(),
{
    if parts.len() == 0 {
        Map::empty()
    } else {
        appended(all_mags(parts.drop_last()), parts.last().evaluation.apparent_mags@)
    }
}

/// Every series has a sound table of magnitudes.
pub open spec fn all_wf(parts: Seq<StackedSeries>) -> bool {
    forall|i: int| 0 <= i < parts.len() ==> (#[trigger] parts[i]).evaluation.apparent_mags.wf()
}

/// Several series can be taken together: their exposures can be put in order of time, and each
/// exposure has an evaluation time and a magnitude in each band.
pub open spec fn combinable(parts: Seq<StackedSeries>) -> bool {
    let count = all_observations(parts).len();
    &&& comparable(times(all_observations(parts)))
    &&& all_times(parts).len() >= count
    &&& forall|b: Seq<char>| #[trigger]
        all_mags(parts).contains_key(b) ==> all_mags(parts)[b].len() >= count
}

/// An exposure under another number.
pub open spec fn renumbered(observation: ObservationView, number: int) -> ObservationView {
    ObservationView { obs_id: number as u64, ..observation }
}

/// `series` holds the measurements of all parts by ascending time, numbered by place.
pub open spec fn is_combined(parts: Seq<StackedSeries>, series: StackedSeries) -> bool {
    let all = all_observations(parts);
    let order = order_of(times(all));
    let result = observations(series.observations@);
    let table = series.evaluation.apparent_mags@;
    &&& series.evaluation.apparent_mags.wf()
    &&& result.len() == all.len()
    &&& forall|p: int|
        0 <= p < result.len() ==> #[trigger] result[p] == renumbered(all[order[p] as int], p)
    &&& series.evaluation.times_mjd@ == picked(all_times(parts), order)
    &&& table.dom() == all_mags(parts).dom()
    &&& forall|b: Seq<char>| #[trigger]
        table.contains_key(b) ==> table[b] == picked(all_mags(parts)[b], order)
}

/// The values at the given places.
pub open spec fn picked(values: Seq<Double>, order: Seq<usize>) -> Seq<Double> {
    Seq::new(order.len(), |p: int| values[order[p] as int])
}

/// Picks the values at the given places.
fn pick(values: &Vec<Double>, order: &Vec<usize>) -> (res: Vec<Double>)
    requires
        forall|p: int| 0 <= p < order@.len() ==> #[trigger] order@[p] < values@.len(),
    ensures
        res@ == picked(values@, order@),
{
    let mut res: Vec<Double> = Vec::new();
    for p in 0..order.len()
        invariant
            forall|q: int| 0 <= q < order@.len() ==> #[trigger] order@[q] < values@.len(),
            res@.len() == p,
            forall|q: int| 0 <= q < p ==> #[trigger] res@[q] == values@[order@[q] as int],
    {
        res.push(values[order[p]]);
    }
    assert(res@ =~= picked(values@, order@));
    res
}

/// Appends a table to another, band by band.
fn append_table(table: &mut MagTable, other: &MagTable)
    requires
        old(table).wf(),
        other.wf(),
    ensures
        final(table).wf(),
        final(table)@ == appended(old(table)@, other@),
{
    let ghost start = table@;
    proof {
        other.lemma_names();
    }
    let count: usize = other.len();
    for i in 0..count
        invariant
            other.wf(),
            count == other.names().len(),
            other.names().no_duplicates(),
            forall|b: Seq<char>| #[trigger] other@.contains_key(b) <==> other.names().contains(b),
            table.wf(),
            forall|b: Seq<char>| #[trigger]
                table@.contains_key(b) <==> start.contains_key(b) || other.names().take(
                    i as int,
                ).contains(b),
            forall|b: Seq<char>| #[trigger]
                table@.contains_key(b) ==> table@[b] == if other.names().take(i as int).contains(b) {
                    row(start, b) + other@[b]
                } else {
                    start[b]
                },
    {
        let ghost seen = other.names().take(i as int);
        let ghost name = other.names()[i as int];
        let ghost before = table@;
        assert(!seen.contains(name));
        assert(other.names().contains(name));
        table.extend(other.name_at(i), other.mags_at(i));
        assert(other.names().take(i + 1) =~= seen.push(name));
        assert forall|b: Seq<char>| seen.push(name).contains(b) <==> seen.contains(b) || b == name by {
            if seen.contains(b) {
                let k = choose|k: int| 0 <= k < seen.len() && seen[k] == b;
                assert(seen.push(name)[k] == b);
            }
            assert(seen.push(name)[i as int] == name);
        }
        assert(row(start, name) + other@[name] =~= if before.contains_key(name) {
            before[name] + other@[name]
        } else {
            other@[name]
        });
    }
    assert(other.names().take(count as int) =~= other.names());
    assert(table@ =~= appended(start, other@)) by {
        assert forall|b: Seq<char>| #[trigger] table@.contains_key(b) implies table@[b] == appended(
            start,
            other@,
        )[b] by {
            assert(row(start, b) + Seq::<Double>::empty() =~= row(start, b));
        }
    }
}

/// Takes several series together. There is no answer exactly when they are not combinable.
pub fn combine_windows(parts: &Vec<StackedSeries>) -> (res: Option<StackedSeries>)
    requires
        all_wf(parts@),
    ensures
        res is Some <==> combinable(parts@),
        res matches Some(series) ==> is_combined(parts@, series),
{
    let mut all: Vec<SurveyObservation> = Vec::new();
    let mut epochs: Vec<Double> = Vec::new();
    let mut table = MagTable::new();
    assert(observations(all@) =~= Seq::empty());
    assert(table@ =~= Map::empty());
    for i in 0..parts.len()
        invariant
            all_wf(parts@),
            observations(all@) == all_observations(parts@.take(i as int)),
            epochs@ == all_times(parts@.take(i as int)),
            table.wf(),
            table@ == all_mags(parts@.take(i as int)),
    {
        let part = &parts[i];
        assert(parts@.take(i + 1).drop_last() =~= parts@.take(i as int));
        assert(parts@.take(i + 1).last() == *part);
        let ghost before = all@;
        for j in 0..part.observations.len()
            invariant
                all@ == before + part.observations@.take(j as int),
        {
            all.push(part.observations[j].clone());
            assert(part.observations@.take(j + 1) =~= part.observations@.take(j as int).push(
                part.observations@[j as int],
            ));
            assert(before + part.observations@.take(j + 1) =~= (before + part.observations@.take(
                j as int,
            )).push(part.observations@[j as int]));
        }
        assert(part.observations@.take(part.observations@.len() as int) =~= part.observations@);
        assert(observations(all@) =~= observations(before) + observations(part.observations@));
        let ghost past = epochs@;
        for j in 0..part.evaluation.times_mjd.len()
            invariant
                epochs@ == past + part.evaluation.times_mjd@.take(j as int),
        {
            epochs.push(part.evaluation.times_mjd[j]);
            assert(past + part.evaluation.times_mjd@.take(j + 1) =~= (past
                + part.evaluation.times_mjd@.take(j as int)).push(
                part.evaluation.times_mjd@[j as int],
            ));
        }
        assert(part.evaluation.times_mjd@.take(part.evaluation.times_mjd@.len() as int)
            =~= part.evaluation.times_mjd@);
        append_table(&mut table, &part.evaluation.apparent_mags);
    }
    assert(parts@.take(parts@.len() as int) =~= parts@);
    let keys = observation_times(&all);
    if !is_comparable(&keys) || epochs.len() < all.len() {
        return None;
    }
    let order = stable_order(&keys);
    proof {
        table.lemma_names();
    }
    let mut sorted_table = MagTable::new();
    let count: usize = table.len();
    for i in 0..count
        invariant
            table.wf(),
            count == table.names().len(),
            table.names().no_duplicates(),
            forall|b: Seq<char>| #[trigger] table@.contains_key(b) <==> table.names().contains(b),
            table@ == all_mags(parts@),
            keys@.len() == all@.len(),
            keys@.len() == all_observations(parts@).len(),
            is_stable_order(keys@, order@),
            sorted_table.wf(),
            forall|b: Seq<char>| #[trigger]
                sorted_table@.contains_key(b) <==> table.names().take(i as int).contains(b),
            forall|b: Seq<char>| #[trigger]
                sorted_table@.contains_key(b) ==> table@.contains_key(b) && table@[b].len()
                    >= keys@.len() && sorted_table@[b] == picked(table@[b], order@),
    {
        let ghost seen = table.names().take(i as int);
        let ghost name = table.names()[i as int];
        assert(!seen.contains(name));
        assert(table.names().contains(name));
        if table.mags_at(i).len() < all.len() {
            assert(all_mags(parts@).contains_key(name));
            return None;
        }
        let line = pick(table.mags_at(i), &order);
        sorted_table.extend(table.name_at(i), &line);
        assert(table.names().take(i + 1) =~= seen.push(name));
        assert forall|b: Seq<char>| seen.push(name).contains(b) <==> seen.contains(b) || b == name by {
            if seen.contains(b) {
                let k = choose|k: int| 0 <= k < seen.len() && seen[k] == b;
                assert(seen.push(name)[k] == b);
            }
            assert(seen.push(name)[i as int] == name);
        }
    }
    assert(table.names().take(count as int) =~= table.names());
    assert(sorted_table@.dom() =~= all_mags(parts@).dom());
    let times_mjd = pick(&epochs, &order);
    let mut sorted: Vec<SurveyObservation> = Vec::new();
    for p in 0..order.len()
        invariant
            keys@.len() == all@.len(),
            is_stable_order(keys@, order@),
            sorted@.len() == p,
            forall|q: int|
                0 <= q < p ==> (#[trigger] sorted@[q])@ == renumbered(all@[order@[q] as int]@, q),
    {
        let mut observation = all[order[p]].clone();
        observation.obs_id = p as u64;
        sorted.push(observation);
    }
    let series = StackedSeries {
        observations: sorted,
        evaluation: LightcurveEvaluation { apparent_mags: sorted_table, times_mjd },
    };
    assert(is_combined(parts@, series)) by {
        let result = observations(series.observations@);
        assert forall|p: int| 0 <= p < result.len() implies #[trigger] result[p] == renumbered(
            all_observations(parts@)[order_of(times(all_observations(parts@)))[p] as int],
            p,
        ) by {
            assert(result[p] == sorted@[p]@);
            assert(observations(all@)[order@[p] as int] == all@[order@[p] as int]@);
        }
    }
    Some(series)
}

/// `parts` are what stacking can give for each of the windows.
pub open spec fn are_window_stacks<
    L: Fn(Double, Double) -> Double,
    C: Fn(&BinSummary) -> StackedValues,
>(
    elapsed: &L,
    average: &C,
    windows: Seq<Double>,
    eval: &LightcurveEvaluation,
    raw_obs: Seq<SurveyObservation>,
    parts: Seq<StackedSeries>,
) -> bool {
    &&& parts.len() == windows.len()
    &&& forall|i: int|
        0 <= i < parts.len() ==> is_stack_outcome(
            elapsed,
            average,
            windows[i],
            eval,
            raw_obs,
            #[trigger] parts[i],
        )
}

/// Stacks the exposures at each of several time windows and takes the measurements of all windows
/// together as independent ones, by ascending time. Without a window nothing is stacked; a
/// single window gives its own stacks.
///
/// There is no answer when stacking at one of the windows has none, or when the stacks are not
/// combinable.
pub fn stack_multi_window<
    L: Fn(Double, Double) -> Double,
    C: Fn(&BinSummary) -> StackedValues,
>(
    eval: &LightcurveEvaluation,
    raw_obs: &Vec<SurveyObservation>,
    windows_days: &Vec<Double>,
    elapsed: &L,
    average: &C,
) -> (res: Option<StackedSeries>)
    requires
        eval.apparent_mags.wf(),
        forall|t: Double, start: Double| call_requires(*elapsed, (t, start)),
        forall|summary: BinSummary| call_requires(*average, (&summary,)),
    ensures
        match res {
            Some(series) => is_multi_outcome(
                elapsed,
                average,
                windows_days@,
                eval,
                raw_obs@,
                series,
            ),
            None => is_multi_refusal(elapsed, average, windows_days@, eval, raw_obs@),
        },
{
    if windows_days.len() == 0 {
        return Some(unstacked(eval, raw_obs));
    }
    if windows_days.len() == 1 {
        return stack_flux_average(eval, raw_obs, windows_days[0], elapsed, average);
    }
    let mut parts: Vec<StackedSeries> = Vec::new();
    for i in 0..windows_days.len()
        invariant
            eval.apparent_mags.wf(),
            forall|t: Double, start: Double| call_requires(*elapsed, (t, start)),
            forall|summary: BinSummary| call_requires(*average, (&summary,)),
            are_window_stacks(
                elapsed,
                average,
                windows_days@.take(i as int),
                eval,
                raw_obs@,
                parts@,
            ),
    {
        match stack_flux_average(eval, raw_obs, windows_days[i], elapsed, average) {
            None => {
                return None;
            },
            Some(series) => {
                let ghost before = parts@;
                parts.push(series);
                assert forall|j: int| 0 <= j < parts@.len() implies is_stack_outcome(
                    elapsed,
                    average,
                    windows_days@.take(i + 1)[j],
                    eval,
                    raw_obs@,
                    #[trigger] parts@[j],
                ) by {
                    if j < before.len() {
                        assert(parts@[j] == before[j]);
                        assert(windows_days@.take(i + 1)[j] == windows_days@.take(i as int)[j]);
                    }
                }
            },
        }
    }
    assert(windows_days@.take(windows_days@.len() as int) =~= windows_days@);
    assert forall|i: int| 0 <= i < parts@.len() implies (
    #[trigger] parts@[i]).evaluation.apparent_mags.wf() by {
        assert(is_stack_outcome(elapsed, average, windows_days@[i], eval, raw_obs@, parts@[i]));
    }
    combine_windows(&parts)
}

/// `series` is what stacking at the given windows can give.
pub open spec fn is_multi_outcome<
    L: Fn(Double, Double) -> Double,
    C: Fn(&BinSummary) -> StackedValues,
>(
    elapsed: &L,
    average: &C,
    windows: Seq<Double>,
    eval: &LightcurveEvaluation,
    raw_obs: Seq<SurveyObservation>,
    series: StackedSeries,
) -> bool {
    if windows.len() == 0 {
        is_unstacked(eval, raw_obs, series)
    } else if windows.len() == 1 {
        is_stack_outcome(elapsed, average, windows[0], eval, raw_obs, series)
    } else {
        exists|parts: Seq<StackedSeries>| #[trigger]
            are_window_stacks(elapsed, average, windows, eval, raw_obs, parts) && combinable(parts)
                && is_combined(parts, series)
    }
}

/// Stacking at one of the windows can be refused, or its results can fail to be combinable.
pub open spec fn is_multi_refusal<
    L: Fn(Double, Double) -> Double,
    C: Fn(&BinSummary) -> StackedValues,
>(
    elapsed: &L,
    average: &C,
    windows: Seq<Double>,
    eval: &LightcurveEvaluation,
    raw_obs: Seq<SurveyObservation>,
) -> bool {
    ||| exists|i: int|
        0 <= i < windows.len() && is_stack_refusal(
            elapsed,
            average,
            #[trigger] windows[i],
            eval,
            raw_obs,
        )
    ||| windows.len() > 1 && exists|parts: Seq<StackedSeries>| #[trigger]
        are_window_stacks(elapsed, average, windows, eval, raw_obs, parts) && !combinable(parts)
}

} // verus!
