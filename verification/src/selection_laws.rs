//! What the cuts on detections are for.
use vstd::prelude::*;
use vstd::set_lib::{lemma_int_range, set_int_range};

use crate::double::{law_order_is_numeric, units, Double, INFINITE_MAGNITUDE, SIGN_WEIGHT};
use crate::matching::{
    count_set, flag_of, flags_of, is_selected, law_absent_not_detected, law_flags_of_distinct,
    selected, SelectionCuts, Verdict,
};

verus! {

/// The number is above zero.
pub open spec fn is_positive(x: Double) -> bool {
    x.bits == INFINITE_MAGNITUDE || (x.finite() && x.value() > 0)
}

/// The latitude is less than the limit away from the plane, to one side or the other.
pub open spec fn is_too_close(limit: Double, lat: Double) -> bool {
    &&& is_positive(limit)
    &&& lat.finite()
    &&& limit.finite() ==> -limit.value() < lat.value() < limit.value()
}

/// Spectra are asked for, the chance of one is known, and the number held against it exceeds it.
pub open spec fn is_without_spectrum(steepness: Double, hash: Double, chance: Option<Double>) -> bool {
    &&& is_positive(steepness)
    &&& chance is Some
    &&& (chance->0).below(hash)
}

/// A detection is kept if and only if it is not too close to the plane, on either side of it, and
/// not without a spectrum.
pub open spec fn is_kept(cuts: SelectionCuts, verdict: Verdict) -> bool {
    &&& verdict.detected
    &&& !is_too_close(cuts.min_galactic_lat, verdict.galactic_lat)
    &&& !is_without_spectrum(cuts.completeness_k, verdict.hash, verdict.completeness)
}

pub proof fn lemma_positive(x: Double)
    ensures
        (Double { bits: 0 }).below(x) <==> is_positive(x),
{
    let zero = Double { bits: 0 };
    assert(units(0) == 0 && zero.value() == 0);
    if x.finite() {
        law_order_is_numeric(zero, x);
    }
}

/// The cuts keep exactly the detections that are to be kept.
pub proof fn law_kept_detections(cuts: SelectionCuts, verdict: Verdict)
    ensures
        is_selected(cuts, verdict) <==> is_kept(cuts, verdict),
{
    lemma_positive(cuts.min_galactic_lat);
    lemma_positive(cuts.completeness_k);
    let zero = Double { bits: 0 };
    let (limit, lat) = (cuts.min_galactic_lat, verdict.galactic_lat);
    assert(units(0) == 0 && zero.value() == 0);
    if lat.finite() {
        law_order_is_numeric(zero, lat.unsigned());
        if limit.finite() {
            law_order_is_numeric(lat.unsigned(), limit);
        }
    }
}

/// The two sides of the galactic plane are treated alike.
pub proof fn law_both_sides_of_the_plane(cuts: SelectionCuts, north: Verdict, south: Verdict)
    requires
        south.galactic_lat.bits == north.galactic_lat.bits + SIGN_WEIGHT,
        south.detected == north.detected,
        south.hash == north.hash,
        south.completeness == north.completeness,
    ensures
        is_selected(cuts, north) == is_selected(cuts, south),
{
}

/// Further from the plane is never worse, and a higher chance of a spectrum is never worse.
pub proof fn law_better_detections_stay(cuts: SelectionCuts, worse: Verdict, better: Verdict)
    requires
        is_selected(cuts, worse),
        better.detected,
        worse.galactic_lat.unsigned().at_most(better.galactic_lat.unsigned()),
        better.hash == worse.hash,
        better.completeness == worse.completeness || (better.completeness matches Some(q)
            && worse.completeness matches Some(p) && p.at_most(q)) || better.completeness is None,
    ensures
        is_selected(cuts, better),
{
}

/// Raising a limit removes detections and brings none back.
pub proof fn law_stricter_cuts_keep_less(loose: SelectionCuts, strict: SelectionCuts, verdict: Verdict)
    requires
        loose.min_galactic_lat.at_most(strict.min_galactic_lat),
        loose.completeness_k.at_most(strict.completeness_k),
        is_selected(strict, verdict),
    ensures
        is_selected(loose, verdict),
{
}

/// What is no number cuts nothing: a limit, a latitude, a chance or a number held against it.
pub proof fn law_no_number_cuts_nothing(cuts: SelectionCuts, verdict: Verdict)
    requires
        cuts.min_galactic_lat.nan() || verdict.galactic_lat.nan(),
        cuts.completeness_k.nan() || verdict.hash.nan() || verdict.completeness is None
            || verdict.completeness->0.nan(),
    ensures
        is_selected(cuts, verdict) == verdict.detected,
{
}

/// Every detection is judged for itself: there is one answer for each, and it depends on no other
/// detection and not on its place.
pub proof fn law_judged_one_by_one(
    cuts: SelectionCuts,
    first: Seq<Verdict>,
    second: Seq<Verdict>,
    i: int,
    j: int,
)
    requires
        0 <= i < first.len(),
        0 <= j < second.len(),
        first[i] == second[j],
    ensures
        selected(cuts, first).len() == first.len(),
        selected(cuts, first)[i] == selected(cuts, second)[j],
        selected(cuts, first)[i] == is_selected(cuts, first[i]),
{
}

/// The places at which a flag is set.
pub open spec fn places_set(flags: Seq<bool>) -> Set<int> {
    set_int_range(0, flags.len() as int).filter(|i: int| flags[i])
}

/// The count of flags is the number of places at which one is set.
pub proof fn law_count_is_number_of_places(flags: Seq<bool>)
    ensures
        count_set(flags) == places_set(flags).len(),
    decreases flags.len(),
{
    lemma_int_range(0, flags.len() as int);
    if flags.len() == 0 {
        assert(places_set(flags) =~= Set::empty());
    } else {
        let rest = flags.drop_last();
        let last = flags.len() - 1;
        law_count_is_number_of_places(rest);
        lemma_int_range(0, last as int);
        assert(!places_set(rest).contains(last as int));
        if flags.last() {
            assert(places_set(flags) =~= places_set(rest).insert(last as int));
        } else {
            assert(places_set(flags) =~= places_set(rest));
        }
    }
}

/// A flag that is turned over changes the count by one, wherever it stands.
pub proof fn law_every_flag_counts(flags: Seq<bool>, i: int)
    requires
        0 <= i < flags.len(),
        !flags[i],
    ensures
        count_set(flags.update(i, true)) == count_set(flags) + 1,
{
    let more = flags.update(i, true);
    law_count_is_number_of_places(flags);
    law_count_is_number_of_places(more);
    lemma_int_range(0, flags.len() as int);
    assert(places_set(more) =~= places_set(flags).insert(i));
}

/// Each transient that was drawn is judged: by its own flag if it was measured, and as not detected
/// if it was not.
pub proof fn law_every_transient_has_a_verdict(count: nat, places: Seq<usize>, flags: Seq<bool>)
    requires
        places.len() == flags.len(),
        places.no_duplicates(),
        forall|k: int| 0 <= k < places.len() ==> #[trigger] places[k] < count,
    ensures
        flags_of(count, places, flags).len() == count,
        forall|k: int|
            0 <= k < places.len() ==> flags_of(count, places, flags)[#[trigger] places[k] as int]
                == flags[k],
        forall|i: int|
            0 <= i < count && !places.contains(i as usize) ==> !(#[trigger] flags_of(
                count,
                places,
                flags,
            )[i]),
{
    assert forall|k: int| 0 <= k < places.len() implies flags_of(count, places, flags)[
    #[trigger] places[k] as int] == flags[k] by {
        law_flags_of_distinct(places, flags, k);
    }
    assert forall|i: int| 0 <= i < count && !places.contains(i as usize) implies !(
    #[trigger] flags_of(count, places, flags)[i]) by {
        assert forall|k: int| 0 <= k < places.len() implies #[trigger] places[k] != i by {
            assert(places.contains(places[k]));
        }
        law_absent_not_detected(places, flags, i);
        assert(!flag_of(places, flags, i));
    }
}

} // verus!
