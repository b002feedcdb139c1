//! What the text of numbers and lists says.
use vstd::prelude::*;

use crate::text::{comma_joined, decimal, digit, text_before};

verus! {

/// The number that a decimal digit stands for.
pub open spec fn digit_value(c: char) -> int {
    (c as int) - ('0' as int)
}

/// The number that decimal digits stand for.
pub open spec fn number_of(digits: Seq<char>) -> int
    decreases digits.len(),
{
    if digits.len() == 0 {
        0
    } else {
        10 * number_of(digits.drop_last()) + digit_value(digits.last())
    }
}

/// A number in decimal reads back as that number, is made of digits alone, and has no zero in front
/// unless it is zero.
pub proof fn law_decimal_reads_back(n: int)
    requires
        0 <= n,
    ensures
        number_of(decimal(n)) == n,
        decimal(n).len() > 0,
        forall|i: int| 0 <= i < decimal(n).len() ==> 0 <= digit_value(#[trigger] decimal(n)[i]) < 10,
        n > 0 ==> decimal(n)[0] != '0',
        n == 0 ==> decimal(n).len() == 1,
    decreases n,
{
    let text = decimal(n);
    if n < 10 {
        assert(text.drop_last() =~= Seq::empty());
        assert(digit_value(digit(n)) == n);
        assert(text.last() == digit(n));
        assert(number_of(text.drop_last()) == 0);
    } else {
        law_decimal_reads_back(n / 10);
        let front = decimal(n / 10);
        assert(text.drop_last() =~= front);
        assert(digit_value(digit(n % 10)) == n % 10);
        assert forall|i: int| 0 <= i < text.len() implies 0 <= digit_value(#[trigger] text[i])
            < 10 by {
            if i < front.len() {
                assert(text[i] == front[i]);
            }
        }
    }
}

/// Different numbers have different texts.
pub proof fn law_decimals_differ(m: int, n: int)
    requires
        0 <= m,
        0 <= n,
        decimal(m) == decimal(n),
    ensures
        m == n,
{
    law_decimal_reads_back(m);
    law_decimal_reads_back(n);
}

/// A text comes before another if and only if it is a shorter beginning of it, or has the smaller
/// character at the first place where the two differ.
pub proof fn law_text_order(a: Seq<char>, b: Seq<char>)
    ensures
        text_before(a, b) <==> comes_first(a, b),
    decreases a.len(),
{
    if a.len() > 0 && b.len() > 0 && a[0] == b[0] {
        let (x, y) = (a.drop_first(), b.drop_first());
        law_text_order(x, y);
        if text_before(a, b) {
            let n = choose|n: int| differ_first_at(x, y, n);
            assert forall|i: int| 0 <= i < n + 1 implies #[trigger] a[i] == b[i] by {
                if i > 0 {
                    assert(x[i - 1] == y[i - 1]);
                }
            }
            assert(differ_first_at(a, b, n + 1));
        }
        if exists|n: int| differ_first_at(a, b, n) {
            let n = choose|n: int| differ_first_at(a, b, n);
            assert forall|i: int| 0 <= i < n - 1 implies #[trigger] x[i] == y[i] by {
                assert(a[i + 1] == b[i + 1]);
            }
            if n == 0 {
                assert(a[0] == b[0]);
            }
            assert(differ_first_at(x, y, n - 1));
        }
    } else if text_before(a, b) {
        assert(differ_first_at(a, b, 0));
    } else if exists|n: int| differ_first_at(a, b, n) {
        let n = choose|n: int| differ_first_at(a, b, n);
        if n > 0 {
            assert(a[0] == b[0]);
        }
    }
}

/// At the first place where the texts differ, `a` has ended or has the smaller character.
pub open spec fn comes_first(a: Seq<char>, b: Seq<char>) -> bool {
    exists|n: int| differ_first_at(a, b, n)
}

/// The texts agree up to place `n`, and there `a` has ended or has the smaller character.
pub open spec fn differ_first_at(a: Seq<char>, b: Seq<char>, n: int) -> bool {
    &&& 0 <= n <= a.len()
    &&& n < b.len()
    &&& forall|i: int| 0 <= i < n ==> #[trigger] a[i] == b[i]
    &&& n < a.len() ==> (a[n] as int) < (b[n] as int)
}

/// `line` holds the texts one after the other, text `i` from place `starts[i]` on, with one comma
/// between neighbours.
pub open spec fn is_separated(list: Seq<Seq<char>>, starts: Seq<int>, line: Seq<char>) -> bool {
    &&& starts.len() == list.len()
    &&& list.len() > 0 ==> starts[0] == 0 && line.len() == starts[list.len() - 1] + list[list.len()
        - 1].len()
    &&& list.len() == 0 ==> line.len() == 0
    &&& forall|i: int|
        0 <= i < list.len() ==> {
            &&& 0 <= #[trigger] starts[i]
            &&& starts[i] + list[i].len() <= line.len()
            &&& line.subrange(starts[i], starts[i] + list[i].len()) == list[i]
            &&& i + 1 < list.len() ==> starts[i + 1] == starts[i] + list[i].len() + 1
            &&& i + 1 < list.len() ==> line[starts[i] + list[i].len()] == ','
        }
}

/// Joined texts are all there, in their order, with one comma between neighbours and nothing else.
pub proof fn law_joined_texts(list: Seq<Seq<char>>)
    ensures
        exists|starts: Seq<int>| is_separated(list, starts, comma_joined(list)),
{
    let starts = lemma_starts(list);
    assert(is_separated(list, starts, comma_joined(list)));
}

proof fn lemma_starts(list: Seq<Seq<char>>) -> (starts: Seq<int>)
    ensures
        is_separated(list, starts, comma_joined(list)),
    decreases list.len(),
{
    reveal_strlit(",");
    let line = comma_joined(list);
    if list.len() == 0 {
        Seq::empty()
    } else if list.len() == 1 {
        let starts = seq![0int];
        assert(line.subrange(0, list[0].len() as int) =~= list[0]);
        starts
    } else {
        let rest = list.drop_last();
        let front = comma_joined(rest);
        let before = lemma_starts(rest);
        let starts = before.push(front.len() as int + 1);
        let last = list.len() - 1;
        assert(line =~= front + ","@ + list.last());
        assert(","@.len() == 1 && ","@[0] == ',');
        assert forall|i: int| 0 <= i < list.len() implies {
            &&& 0 <= #[trigger] starts[i]
            &&& starts[i] + list[i].len() <= line.len()
            &&& line.subrange(starts[i], starts[i] + list[i].len()) == list[i]
            &&& i + 1 < list.len() ==> starts[i + 1] == starts[i] + list[i].len() + 1
            &&& i + 1 < list.len() ==> line[starts[i] + list[i].len()] == ','
        } by {
            if i < last {
                assert(starts[i] == before[i]);
                assert(rest[i] == list[i]);
                assert(front.subrange(before[i], before[i] + rest[i].len()) == rest[i]);
                assert(line.subrange(starts[i], starts[i] + list[i].len()) =~= front.subrange(
                    before[i],
                    before[i] + rest[i].len(),
                ));
                if i + 1 == last {
                    assert(before[i] + rest[i].len() == front.len());
                } else {
                    assert(starts[i + 1] == before[i + 1]);
                }
            } else {
                assert(line.subrange(starts[i], starts[i] + list[i].len()) =~= list[i]);
            }
        }
        starts
    }
}

} // verus!
