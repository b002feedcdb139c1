//! What the numbers of the pipeline are: their order, their size, their whole part, and the
//! random numbers that stand behind noise.
use vstd::arithmetic::power2::{
    lemma2_to64, lemma2_to64_rest, lemma_pow2_adds, lemma_pow2_pos, pow2,
};
use vstd::prelude::*;

use crate::double::{law_order_is_numeric, units, Double, FRACTIONS, INFINITE_MAGNITUDE, SIGN_WEIGHT};
use crate::matching::is_maximum;
use crate::noise::numerator;
use crate::order::{is_stable_order, precedes};
use crate::photometry::seed_of;

verus! {

/// Of two numbers one is smaller, or they are equal; with a NaN, nothing holds.
pub proof fn law_comparisons(a: Double, b: Double)
    ensures
        a.nan() || b.nan() ==> !a.below(b) && !a.at_most(b) && !b.below(a) && !b.at_most(a),
        !a.nan() && !b.nan() ==> (a.below(b) <==> !b.at_most(a)),
        !a.nan() && !b.nan() ==> a.at_most(b) || b.at_most(a),
        a.below(b) ==> a.at_most(b) && !b.below(a),
        a.finite() ==> !a.nan(),
{
}

/// Comparisons chain.
pub proof fn law_comparisons_chain(a: Double, b: Double, c: Double)
    ensures
        a.at_most(b) && b.at_most(c) ==> a.at_most(c),
        a.below(b) && b.at_most(c) ==> a.below(c),
        a.at_most(b) && b.below(c) ==> a.below(c),
{
}

/// Every finite number lies between the two infinities, which are the only other ones that are no
/// NaN.
pub proof fn law_infinities(a: Double)
    ensures
        a.finite() <==> (Double { bits: (INFINITE_MAGNITUDE + SIGN_WEIGHT) as u64 }).below(a)
            && a.below(Double { bits: INFINITE_MAGNITUDE }),
        !a.finite() && !a.nan() <==> a.bits == INFINITE_MAGNITUDE || a.bits == INFINITE_MAGNITUDE
            + SIGN_WEIGHT,
{
}

/// A number and its opposite have the same size, which is the larger of their values.
pub proof fn law_size(a: Double, opposite: Double)
    requires
        opposite.bits == a.bits + SIGN_WEIGHT,
    ensures
        a.unsigned() == a,
        opposite.unsigned() == a,
        opposite.value() == -a.value(),
        a.finite() ==> a.value() >= 0,
        a.nan() == opposite.nan(),
        a.finite() == opposite.finite(),
{
    if a.finite() {
        law_order_is_numeric(Double { bits: 0 }, a);
        assert(units(0) == 0);
    }
}

/// From one finite size to the next it is one unit in the last place: the smallest double below
/// 2^-1022, and from there on twice as much whenever the size has doubled.
pub proof fn law_next_value(a: Double, next: Double)
    requires
        a.bits < INFINITE_MAGNITUDE - 1,
        next.bits == a.bits + 1,
    ensures
        (Double { bits: 0 }).value() == 0,
        a.bits < FRACTIONS ==> next.value() == a.value() + 1,
        a.bits >= FRACTIONS ==> next.value() == a.value() + pow2((a.bits / FRACTIONS - 1) as nat),
{
    let m = a.bits as int;
    let f = FRACTIONS as int;
    assert(units(0) == 0);
    assert(pow2(0) == 1) by {
        lemma2_to64();
    }
    if m >= f {
        let e = m / f;
        let p = pow2((e - 1) as nat) as int;
        if (m + 1) % f == 0 {
            assert((m + 1) / f == e + 1 && m % f == f - 1);
            lemma_pow2_adds((e - 1) as nat, 1);
            assert(pow2(1) == 2) by {
                lemma2_to64();
            }
            assert((f + (f - 1)) * p + p == (f + 0) * (p * 2)) by (nonlinear_arith);
            assert(units(m) == (f + (f - 1)) * p);
            assert(pow2((e + 1 - 1) as nat) == p * 2);
            assert(units(m + 1) == (f + 0) * (p * 2));
        } else {
            assert((m + 1) / f == e && (m + 1) % f == m % f + 1);
            let r = m % f;
            assert((f + r) * p + p == (f + (r + 1)) * p) by (nonlinear_arith);
            assert(units(m) == (f + r) * p);
            assert(units(m + 1) == (f + (r + 1)) * p);
        }
    } else if m + 1 == f {
        assert((m + 1) / f == 1 && (m + 1) % f == 0);
    }
}

/// The whole part of a number in the range of `i64` is the integer that the number is at or above
/// by less than one.
pub proof fn law_whole_part(a: Double)
    requires
        a.finite(),
        i64::MIN * pow2(1074) <= a.value() < (i64::MAX + 1) * pow2(1074),
    ensures
        a.floored() * pow2(1074) <= a.value() < (a.floored() + 1) * pow2(1074),
{
    lemma_pow2_pos(1074);
    let (v, p) = (a.value(), pow2(1074) as int);
    let q = v / p;
    let (low, high) = (i64::MIN as int, i64::MAX as int);
    assert(q * p <= v < (q + 1) * p) by (nonlinear_arith)
        requires
            q == v / p,
            p > 0,
    ;
    assert(low <= q <= high) by (nonlinear_arith)
        requires
            q * p <= v < (q + 1) * p,
            low * p <= v < (high + 1) * p,
            p > 0,
    ;
}

/// Of two numbers in order the whole parts are in order.
pub proof fn law_whole_parts_ordered(a: Double, b: Double)
    requires
        a.at_most(b),
    ensures
        a.floored() <= b.floored(),
        i64::MIN <= a.floored() <= i64::MAX,
{
    lemma_pow2_pos(1074);
    if a.finite() && b.finite() {
        law_order_is_numeric(a, b);
        let (v, w, p) = (a.value(), b.value(), pow2(1074) as int);
        assert(v / p <= w / p) by (nonlinear_arith)
            requires
                v <= w,
                p > 0,
        ;
    }
}

/// An order lists every place once, by ascending number, and equal numbers in their given order.
pub proof fn law_stable_order(keys: Seq<Double>, order: Seq<usize>, i: int, j: int)
    requires
        is_stable_order(keys, order),
        0 <= i < j < order.len(),
    ensures
        order.len() == keys.len(),
        order[i] < keys.len(),
        order[i] != order[j],
        !keys[order[j] as int].below(keys[order[i] as int]),
        keys[order[i] as int] == keys[order[j] as int] ==> order[i] < order[j],
{
    assert(precedes(keys, order[i] as int, order[j] as int));
}

/// No redshift is larger than the largest one, which is one of those drawn, or zero when none is
/// above it.
pub proof fn law_largest(values: Seq<Double>, top: Double)
    requires
        is_maximum(values, top),
    ensures
        (Double { bits: 0 }).at_most(top),
        forall|i: int|
            0 <= i < values.len() && !(#[trigger] values[i]).nan() ==> values[i].at_most(top),
        forall|i: int| 0 <= i < values.len() ==> !top.below(#[trigger] values[i]),
        top.bits != 0 ==> values.contains(top),
        (forall|i: int|
            0 <= i < values.len() ==> !(Double { bits: 0 }).below(#[trigger] values[i]))
            ==> top.bits == 0,
{
    if top.bits != 0 {
        let i = choose|i: int| 0 <= i < values.len() && #[trigger] values[i] == top;
        assert((Double { bits: 0 }).below(values[i]));
    }
}

/// Two largest redshifts of the same transients are one.
pub proof fn law_largest_is_unique(values: Seq<Double>, a: Double, b: Double)
    requires
        is_maximum(values, a),
        is_maximum(values, b),
    ensures
        a == b,
{
    law_largest(values, a);
    law_largest(values, b);
    if a.bits != 0 {
        assert(values.contains(a));
    }
    if b.bits != 0 {
        assert(values.contains(b));
    }
}

/// A random word stands for the multiple of 2^-53 that it reaches when it is read as a fraction of
/// 2^64: the number lies in [0, 1), and no larger multiple is within the word.
pub proof fn law_numerator(word: u64)
    ensures
        numerator(word) < pow2(53),
        numerator(word) * pow2(11) <= word < (numerator(word) + 1) * pow2(11),
{
    lemma2_to64();
    lemma2_to64_rest();
}

/// A bit of the seed is set if and only if it is set in one of the two words and not in the other.
pub proof fn law_seed_bits(pair: (u64, u64), i: u64)
    requires
        i < 64,
    ensures
        (seed_of(pair) >> i) & 1 == 1 <==> ((pair.0 >> i) & 1 == 1) != ((pair.1 >> i) & 1 == 1),
{
    let (a, b) = pair;
    assert(((a ^ b) >> i) & 1 == 1 <==> ((a >> i) & 1 == 1) != ((b >> i) & 1 == 1))
        by (bit_vector)
        requires
            i < 64,
    ;
}

/// Transients of one explosion time and different redshift words, or the other way round, have
/// different seeds.
pub proof fn law_seeds_differ(a: (u64, u64), b: (u64, u64))
    requires
        (a.0 == b.0) != (a.1 == b.1),
    ensures
        seed_of(a) != seed_of(b),
{
    let (p, q) = a;
    let (r, s) = b;
    assert((p == r) != (q == s) ==> p ^ q != r ^ s) by (bit_vector);
}

} // verus!
