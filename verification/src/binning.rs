//! Grouping of exposures by band, and of the exposures of a band by time.
use vstd::prelude::*;

use crate::double::Double;
use crate::order::{comparable, is_comparable, is_stable_order, order_of, stable_order};
use crate::survey::{bands, observations, MagTable, ObservationView, SurveyObservation};

verus! {

/// The band names in the order in which they first occur.
pub open spec fn distinct_bands(names: Seq<Seq<char>>) -> Seq<Seq<char>>
    decreases names.len(),
{
    if names.len() == 0 {
        Seq::empty()
    } else {
        let before = distinct_bands(names.drop_last());
        if before.contains(names.last()) {
            before
        } else {
            before.push(names.last())
        }
    }
}

/// The positions at which a band occurs, ascending.
pub open spec fn band_members(names: Seq<Seq<char>>, band: Seq<char>) -> Seq<usize>
    decreases names.len(),
{
    if names.len() == 0 {
        Seq::empty()
    } else {
        let before = band_members(names.drop_last(), band);
        if names.last() == band {
            before.push((names.len() - 1) as usize)
        } else {
            before
        }
    }
}

/// The exposures of one band, by position.
#[derive(Debug)]
pub struct BandGroup {
    pub band: String,
    pub members: Vec<usize>,
}

/// `groups` holds one group for each band of `names`, with all positions of that band.
pub open spec fn is_grouping(names: Seq<Seq<char>>, groups: Seq<BandGroup>) -> bool {
    &&& groups.len() == distinct_bands(names).len()
    &&& forall|k: int|
        0 <= k < groups.len() ==> {
            &&& (#[trigger] groups[k]).band@ == distinct_bands(names)[k]
            &&& groups[k].members@ == band_members(names, groups[k].band@)
        }
}

/// The bands that occur are listed once each, and each has positions.
pub proof fn lemma_distinct_bands(names: Seq<Seq<char>>)
    ensures
        distinct_bands(names).no_duplicates(),
        forall|b: Seq<char>| #[trigger] distinct_bands(names).contains(b) <==> names.contains(b),
    decreases names.len(),
{
    if names.len() > 0 {
        let rest = names.drop_last();
        lemma_distinct_bands(rest);
        let before = distinct_bands(rest);
        assert forall|b: Seq<char>| #[trigger] distinct_bands(names).contains(b) <==> names.contains(
            b,
        ) by {
            if names.contains(b) {
                let i = choose|i: int| 0 <= i < names.len() && names[i] == b;
                if i < rest.len() {
                    assert(rest[i] == b);
                    assert(before.contains(b));
                    let k = choose|k: int| 0 <= k < before.len() && before[k] == b;
                    assert(distinct_bands(names)[k] == b);
                } else if !before.contains(b) {
                    assert(distinct_bands(names)[before.len() as int] == b);
                }
            }
            if distinct_bands(names).contains(b) {
                let k = choose|k: int|
                    0 <= k < distinct_bands(names).len() && distinct_bands(names)[k] == b;
                if k < before.len() {
                    assert(before[k] == b);
                    assert(before.contains(b));
                    let i = choose|i: int| 0 <= i < rest.len() && rest[i] == b;
                    assert(names[i] == b);
                } else {
                    assert(names[names.len() - 1] == b);
                }
            }
        }
    }
}

/// The positions of a band are those at which it occurs, in ascending order.
pub proof fn lemma_band_members(names: Seq<Seq<char>>, band: Seq<char>)
    requires
        names.len() <= usize::MAX,
    ensures
        forall|i: int|
            0 <= i < band_members(names, band).len() ==> (#[trigger] band_members(names, band)[i])
                < names.len() && names[band_members(names, band)[i] as int] == band,
        forall|i: int, j: int|
            0 <= i < j < band_members(names, band).len() ==> #[trigger] band_members(names, band)[i]
                < #[trigger] band_members(names, band)[j],
        forall|p: int|
            0 <= p < names.len() && #[trigger] names[p] == band ==> band_members(
                names,
                band,
            ).contains(p as usize),
        band_members(names, band).len() == 0 <==> !names.contains(band),
        band_members(names, band).len() <= names.len(),
    decreases names.len(),
{
    if names.len() > 0 {
        let rest = names.drop_last();
        lemma_band_members(rest, band);
        let before = band_members(rest, band);
        let all = band_members(names, band);
        assert forall|p: int| 0 <= p < names.len() && #[trigger] names[p] == band implies all.contains(
            p as usize,
        ) by {
            if p < rest.len() {
                assert(rest[p] == band);
                let i = choose|i: int| 0 <= i < before.len() && before[i] == p as usize;
                assert(all[i] == p as usize);
            } else {
                assert(all[before.len() as int] == p as usize);
            }
        }
        assert(all.len() == 0 <==> !names.contains(band)) by {
            if names.contains(band) {
                let p = choose|p: int| 0 <= p < names.len() && names[p] == band;
                assert(all.contains(p as usize));
            } else if all.len() > 0 {
                assert(names[all[0] as int] == band);
            }
        }
    }
}

/// Groups exposures by band.
pub fn group_by_band(list: &Vec<SurveyObservation>) -> (groups: Vec<BandGroup>)
    ensures
        is_grouping(bands(observations(list@)), groups@),
{
    let ghost names = bands(observations(list@));
    let mut groups: Vec<BandGroup> = Vec::new();
    for i in 0..list.len()
        invariant
            names == bands(observations(list@)),
            is_grouping(names.take(i as int), groups@),
    {
        let ghost before = groups@;
        let ghost seen = names.take(i as int);
        assert(names.take(i + 1).drop_last() =~= seen);
        assert(names.take(i + 1).last() == list@[i as int].band@);
        let mut k: usize = 0;
        while k < groups.len() && groups[k].band != list[i].band
            invariant
                i < list@.len(),
                k <= groups@.len(),
                forall|j: int| 0 <= j < k ==> (#[trigger] groups@[j]).band@ != list@[i as int].band@,
            decreases groups@.len() - k,
        {
            k = k + 1;
        }
        proof {
            lemma_distinct_bands(seen);
        }
        if k < groups.len() {
            groups[k].members.push(i);
            proof {
                assert(distinct_bands(seen)[k as int] == list@[i as int].band@);
                assert(distinct_bands(seen).contains(list@[i as int].band@));
                assert forall|j: int| 0 <= j < groups@.len() implies {
                    &&& (#[trigger] groups@[j]).band@ == distinct_bands(names.take(i + 1))[j]
                    &&& groups@[j].members@ == band_members(names.take(i + 1), groups@[j].band@)
                } by {
                    if j != k {
                        assert(groups@[j] == before[j]);
                        assert(distinct_bands(seen)[j] != distinct_bands(seen)[k as int]);
                    }
                }
            }
        } else {
            let mut members: Vec<usize> = Vec::new();
            members.push(i);
            groups.push(BandGroup { band: list[i].band.clone(), members });
            proof {
                let name = list@[i as int].band@;
                if distinct_bands(seen).contains(name) {
                    let j = choose|j: int|
                        0 <= j < distinct_bands(seen).len() && distinct_bands(seen)[j] == name;
                    assert(before[j].band@ == name);
                }
                lemma_band_members(seen, name);
                assert(members@ =~= band_members(names.take(i + 1), name));
                assert forall|j: int| 0 <= j < groups@.len() implies {
                    &&& (#[trigger] groups@[j]).band@ == distinct_bands(names.take(i + 1))[j]
                    &&& groups@[j].members@ == band_members(names.take(i + 1), groups@[j].band@)
                } by {
                    if j < before.len() {
                        assert(groups@[j] == before[j]);
                    }
                }
            }
        }
    }
    assert(names.take(list@.len() as int) =~= names);
    groups
}

/// The times of the exposures at some positions.
pub open spec fn member_times(list: Seq<ObservationView>, members: Seq<usize>) -> Seq<Double> {
    Seq::new(members.len(), |i: int| list[members[i] as int].mjd)
}

/// Positions by ascending time, equal times in their given order.
pub open spec fn by_time(list: Seq<ObservationView>, members: Seq<usize>) -> Seq<usize> {
    let order = order_of(member_times(list, members));
    Seq::new(members.len(), |i: int| members[order[i] as int])
}

/// Bins one after the other.
pub open spec fn joined(bins: Seq<Vec<usize>>) -> Seq<usize>
    decreases bins.len(),
{
    if bins.len() == 0 {
        Seq::empty()
    } else {
        joined(bins.drop_last()) + bins.last()@
    }
}

/// The time that `elapsed` can give from the exposure at `start` to the one at `position` is at most
/// the window if `joins` is set, so that the latter joins the bin that the former opened. If it is
/// not set, that time exceeds the window, or one of the two is no number.
pub open spec fn answers<L: Fn(Double, Double) -> Double>(
    elapsed: &L,
    window: Double,
    list: Seq<ObservationView>,
    position: usize,
    start: usize,
    joins: bool,
) -> bool {
    exists|time: Double| #[trigger]
        call_ensures(*elapsed, (list[position as int].mjd, list[start as int].mjd), time) && joins
            == time.at_most(window)
}

/// `bins` cuts `order` into runs: the time from the member that opens a bin to a later member of it
/// is at most the window, and the time from one opening to the next is not.
pub open spec fn is_binning<L: Fn(Double, Double) -> Double>(
    elapsed: &L,
    window: Double,
    list: Seq<ObservationView>,
    order: Seq<usize>,
    bins: Seq<Vec<usize>>,
) -> bool {
    &&& joined(bins) == order
    &&& forall|k: int| 0 <= k < bins.len() ==> (#[trigger] bins[k])@.len() > 0
    &&& forall|k: int, i: int|
        0 <= k < bins.len() && 1 <= i < bins[k]@.len() ==> answers(
            elapsed,
            window,
            list,
            #[trigger] bins[k]@[i],
            bins[k]@[0],
            true,
        )
    &&& forall|k: int|
        1 <= k < bins.len() ==> answers(
            elapsed,
            window,
            list,
            (#[trigger] bins[k])@[0],
            bins[k - 1]@[0],
            false,
        )
}

/// Cuts an order into bins. A member joins the bin if its time since the opening of the bin, which
/// `elapsed` gives, is at most the window. If that time exceeds the window, or one of the two is no
/// number, the member starts a new bin.
pub fn sequential_bins<L: Fn(Double, Double) -> Double>(
    list: &Vec<SurveyObservation>,
    order: &Vec<usize>,
    window: Double,
    elapsed: &L,
) -> (bins: Vec<Vec<usize>>)
    requires
        forall|i: int| 0 <= i < order@.len() ==> #[trigger] order@[i] < list@.len(),
        forall|t: Double, start: Double| call_requires(*elapsed, (t, start)),
    ensures
        is_binning(elapsed, window, observations(list@), order@, bins@),
{
    let ghost views = observations(list@);
    let mut bins: Vec<Vec<usize>> = Vec::new();
    if order.len() == 0 {
        assert(joined(bins@) =~= order@);
        return bins;
    }
    let mut current: Vec<usize> = Vec::new();
    current.push(order[0]);
    assert(joined(bins@) + current@ =~= order@.take(1));
    for p in 1..order.len()
        invariant
            views == observations(list@),
            forall|i: int| 0 <= i < order@.len() ==> #[trigger] order@[i] < list@.len(),
            forall|t: Double, start: Double| call_requires(*elapsed, (t, start)),
            current@[0] < list@.len(),
            current@.len() > 0,
            joined(bins@) + current@ == order@.take(p as int),
            is_binning(elapsed, window, views, joined(bins@), bins@),
            forall|i: int|
                1 <= i < current@.len() ==> answers(
                    elapsed,
                    window,
                    views,
                    #[trigger] current@[i],
                    current@[0],
                    true,
                ),
            bins@.len() > 0 ==> answers(elapsed, window, views, current@[0], bins@.last()@[0], false),
    {
        let position: usize = order[p];
        let ghost filled = bins@;
        let ghost open = current@;
        let time = elapsed(list[position].mjd, list[current[0]].mjd);
        let joins: bool = time.le(&window);
        assert(answers(elapsed, window, views, position, current@[0], joins)) by {
            assert(views[position as int].mjd == list@[position as int].mjd);
            assert(views[current@[0] as int].mjd == list@[current@[0] as int].mjd);
        }
        if joins {
            current.push(position);
            assert(joined(bins@) + current@ =~= (joined(filled) + open).push(position));
        } else {
            bins.push(current);
            current = Vec::new();
            current.push(position);
            proof {
                assert(bins@.drop_last() =~= filled);
                assert forall|k: int, i: int|
                    0 <= k < bins@.len() && 1 <= i < bins@[k]@.len() implies answers(
                    elapsed,
                    window,
                    views,
                    #[trigger] bins@[k]@[i],
                    bins@[k]@[0],
                    true,
                ) by {
                    if k < filled.len() {
                        assert(bins@[k] == filled[k]);
                        assert(answers(elapsed, window, views, filled[k]@[i], filled[k]@[0], true));
                    }
                }
                assert forall|k: int| 1 <= k < bins@.len() implies answers(
                    elapsed,
                    window,
                    views,
                    (#[trigger] bins@[k])@[0],
                    bins@[k - 1]@[0],
                    false,
                ) by {
                    if k < filled.len() {
                        assert(answers(elapsed, window, views, filled[k]@[0], filled[k - 1]@[0], false));
                    }
                }
                assert(joined(bins@) + current@ =~= (joined(filled) + open).push(position));
            }
        }
        assert(order@.take(p + 1) =~= order@.take(p as int).push(position));
    }
    let ghost filled = bins@;
    let ghost open = current@;
    bins.push(current);
    proof {
        assert(bins@.drop_last() =~= filled);
        assert(joined(bins@) =~= order@.take(order@.len() as int));
        assert(order@.take(order@.len() as int) =~= order@);
        assert forall|k: int, i: int|
            0 <= k < bins@.len() && 1 <= i < bins@[k]@.len() implies answers(
            elapsed,
            window,
            views,
            #[trigger] bins@[k]@[i],
            bins@[k]@[0],
            true,
        ) by {
            if k < filled.len() {
                assert(answers(elapsed, window, views, filled[k]@[i], filled[k]@[0], true));
            }
        }
        assert forall|k: int| 1 <= k < bins@.len() implies answers(
            elapsed,
            window,
            views,
            (#[trigger] bins@[k])@[0],
            bins@[k - 1]@[0],
            false,
        ) by {
            if k < filled.len() {
                assert(answers(elapsed, window, views, filled[k]@[0], filled[k - 1]@[0], false));
            }
        }
    }
    bins
}

/// The bins of one band.
#[derive(Debug)]
pub struct BandStack {
    pub band: String,
    pub bins: Vec<Vec<usize>>,
}

/// The bands that occur and for which the model gives magnitudes, in the order in which they
/// first occur.
pub open spec fn evaluated_bands(
    names: Seq<Seq<char>>,
    mags: Map<Seq<char>, Seq<Double>>,
) -> Seq<Seq<char>> {
    distinct_bands(names).filter(|b: Seq<char>| mags.contains_key(b))
}

/// The evaluated bands are those that occur and have magnitudes, each once.
pub proof fn lemma_evaluated_bands(names: Seq<Seq<char>>, mags: Map<Seq<char>, Seq<Double>>)
    ensures
        evaluated_bands(names, mags).no_duplicates(),
        forall|b: Seq<char>| #[trigger]
            evaluated_bands(names, mags).contains(b) <==> names.contains(b) && mags.contains_key(b),
        forall|b: Seq<char>| #[trigger]
            evaluated_bands(names, mags).contains(b) ==> distinct_bands(names).contains(b),
{
    lemma_distinct_bands(names);
    lemma_filter_keeps(distinct_bands(names), |b: Seq<char>| mags.contains_key(b));
}

/// A filtered list holds what it should, and nothing twice that was there once.
proof fn lemma_filter_keeps(list: Seq<Seq<char>>, pred: spec_fn(Seq<char>) -> bool)
    requires
        list.no_duplicates(),
    ensures
        list.filter(pred).no_duplicates(),
        forall|b: Seq<char>| #[trigger]
            list.filter(pred).contains(b) <==> list.contains(b) && pred(b),
    decreases list.len(),
{
    reveal(Seq::filter);
    if list.len() > 0 {
        let rest = list.drop_last();
        lemma_filter_keeps(rest, pred);
        let kept = rest.filter(pred);
        let all = list.filter(pred);
        assert forall|b: Seq<char>| #[trigger] all.contains(b) <==> list.contains(b) && pred(b) by {
            if list.contains(b) && pred(b) {
                let i = choose|i: int| 0 <= i < list.len() && list[i] == b;
                if i < rest.len() {
                    assert(rest[i] == b);
                    assert(kept.contains(b));
                    let k = choose|k: int| 0 <= k < kept.len() && kept[k] == b;
                    assert(all[k] == b);
                } else {
                    assert(all[all.len() - 1] == b);
                }
            }
            if all.contains(b) {
                let k = choose|k: int| 0 <= k < all.len() && all[k] == b;
                if k < kept.len() {
                    assert(kept[k] == b);
                    assert(kept.contains(b));
                    let i = choose|i: int| 0 <= i < rest.len() && rest[i] == b;
                    assert(list[i] == b);
                } else {
                    assert(list[list.len() - 1] == b);
                }
            }
        }
        if pred(list.last()) {
            assert(!rest.contains(list.last()));
            assert(!kept.contains(list.last()));
        }
    }
}

/// In every band the exposures can be put in order of time.
pub open spec fn bands_comparable(list: Seq<ObservationView>) -> bool {
    forall|b: Seq<char>| #[trigger]
        distinct_bands(bands(list)).contains(b) ==> comparable(
            member_times(list, band_members(bands(list), b)),
        )
}

/// `stacks` holds, for each evaluated band, the bins of its exposures in order of time.
pub open spec fn is_plan<L: Fn(Double, Double) -> Double>(
    elapsed: &L,
    window: Double,
    list: Seq<ObservationView>,
    mags: Map<Seq<char>, Seq<Double>>,
    stacks: Seq<BandStack>,
) -> bool {
    &&& stacks.len() == evaluated_bands(bands(list), mags).len()
    &&& forall|k: int|
        0 <= k < stacks.len() ==> {
            &&& (#[trigger] stacks[k]).band@ == evaluated_bands(bands(list), mags)[k]
            &&& is_binning(
                elapsed,
                window,
                list,
                by_time(list, band_members(bands(list), stacks[k].band@)),
                stacks[k].bins@,
            )
        }
}

/// Sorts the exposures at some positions by time.
fn sort_members(list: &Vec<SurveyObservation>, members: &Vec<usize>) -> (res: Option<Vec<usize>>)
    requires
        forall|i: int| 0 <= i < members@.len() ==> #[trigger] members@[i] < list@.len(),
    ensures
        res is Some <==> comparable(member_times(observations(list@), members@)),
        res matches Some(sorted) ==> {
            &&& sorted@ == by_time(observations(list@), members@)
            &&& forall|i: int| 0 <= i < sorted@.len() ==> #[trigger] sorted@[i] < list@.len()
        },
{
    let mut keys: Vec<Double> = Vec::new();
    for i in 0..members.len()
        invariant
            forall|j: int| 0 <= j < members@.len() ==> #[trigger] members@[j] < list@.len(),
            keys@.len() == i,
            forall|j: int| 0 <= j < i ==> #[trigger] keys@[j] == list@[members@[j] as int].mjd,
    {
        keys.push(list[members[i]].mjd);
    }
    assert(keys@ =~= member_times(observations(list@), members@));
    if !is_comparable(&keys) {
        return None;
    }
    let order = stable_order(&keys);
    let mut sorted: Vec<usize> = Vec::new();
    for i in 0..order.len()
        invariant
            keys@.len() == members@.len(),
            forall|j: int| 0 <= j < members@.len() ==> #[trigger] members@[j] < list@.len(),
            is_stable_order(keys@, order@),
            sorted@.len() == i,
            forall|j: int| 0 <= j < i ==> #[trigger] sorted@[j] < list@.len(),
            forall|j: int| 0 <= j < i ==> #[trigger] sorted@[j] == members@[order@[j] as int],
    {
        sorted.push(members[order[i]]);
    }
    assert(sorted@ =~= by_time(observations(list@), members@));
    Some(sorted)
}

/// Bins the exposures of every band that the model evaluated. There is no answer exactly when
/// the times of some band cannot be put in order.
pub fn plan_bins<L: Fn(Double, Double) -> Double>(
    list: &Vec<SurveyObservation>,
    mags: &MagTable,
    window: Double,
    elapsed: &L,
) -> (res: Option<Vec<BandStack>>)
    requires
        mags.wf(),
        forall|t: Double, start: Double| call_requires(*elapsed, (t, start)),
    ensures
        res is Some <==> bands_comparable(observations(list@)),
        res matches Some(stacks) ==> is_plan(elapsed, window, observations(list@), mags@, stacks@),
{
    let groups = group_by_band(list);
    let ghost views = observations(list@);
    let ghost names = bands(views);
    let ghost listed = distinct_bands(names);
    let ghost evaluated = |b: Seq<char>| mags@.contains_key(b);
    let mut stacks: Vec<BandStack> = Vec::new();
    proof {
        reveal(Seq::filter);
        assert(listed.take(0).filter(evaluated) =~= Seq::empty());
    }
    for g in 0..groups.len()
        invariant
            mags.wf(),
            forall|t: Double, start: Double| call_requires(*elapsed, (t, start)),
            views == observations(list@),
            names == bands(views),
            listed == distinct_bands(names),
            is_grouping(names, groups@),
            evaluated == (|b: Seq<char>| mags@.contains_key(b)),
            forall|k: int|
                0 <= k < g ==> comparable(member_times(views, band_members(names, #[trigger] listed[k]))),
            stacks@.len() == listed.take(g as int).filter(evaluated).len(),
            forall|k: int|
                0 <= k < stacks@.len() ==> {
                    &&& (#[trigger] stacks@[k]).band@ == listed.take(g as int).filter(evaluated)[k]
                    &&& is_binning(
                        elapsed,
                        window,
                        views,
                        by_time(views, band_members(names, stacks@[k].band@)),
                        stacks@[k].bins@,
                    )
                },
    {
        let ghost band = listed[g as int];
        assert(groups@[g as int].band@ == band);
        assert(groups@[g as int].members@ == band_members(names, band));
        proof {
            assert(list.len() == names.len());
            lemma_band_members(names, band);
        }
        match sort_members(list, &groups[g].members) {
            None => {
                assert(listed.contains(band));
                return None;
            },
            Some(sorted) => {
                let ghost before = stacks@;
                let bins = sequential_bins(list, &sorted, window, elapsed);
                if mags.get(&groups[g].band).is_some() {
                    stacks.push(BandStack { band: groups[g].band.clone(), bins });
                }
                proof {
                    reveal(Seq::filter);
                    assert(listed.take(g + 1).drop_last() =~= listed.take(g as int));
                    assert(listed.take(g + 1).last() == band);
                    assert forall|k: int| 0 <= k < stacks@.len() implies {
                        &&& (#[trigger] stacks@[k]).band@ == listed.take(g + 1).filter(evaluated)[k]
                        &&& is_binning(
                            elapsed,
                            window,
                            views,
                            by_time(views, band_members(names, stacks@[k].band@)),
                            stacks@[k].bins@,
                        )
                    } by {
                        if k < before.len() {
                            assert(stacks@[k] == before[k]);
                        }
                    }
                }
            },
        }
    }
    proof {
        assert(listed.take(groups@.len() as int) =~= listed);
        assert forall|b: Seq<char>| #[trigger] listed.contains(b) implies comparable(
            member_times(views, band_members(names, b)),
        ) by {
            let k = choose|k: int| 0 <= k < listed.len() && listed[k] == b;
            assert(comparable(member_times(views, band_members(names, listed[k]))));
        }
    }
    Some(stacks)
}

/// What a bin holds was in the order that was cut.
pub proof fn lemma_joined(bins: Seq<Vec<usize>>, k: int, i: int)
    requires
        0 <= k < bins.len(),
        0 <= i < bins[k]@.len(),
    ensures
        joined(bins).contains(bins[k]@[i]),
    decreases bins.len(),
{
    let rest = bins.drop_last();
    if k < rest.len() {
        lemma_joined(rest, k, i);
        let j = choose|j: int| 0 <= j < joined(rest).len() && joined(rest)[j] == bins[k]@[i];
        assert(joined(bins)[j] == bins[k]@[i]);
    } else {
        assert(joined(bins)[joined(rest).len() + i] == bins[k]@[i]);
    }
}

} // verus!
