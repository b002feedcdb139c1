//! Text of reports: numbers, and lists of band names.
use vstd::prelude::*;
use vstd::string::{StrSliceExecFns, StringExecFns};

use crate::text_laws::{law_decimal_reads_back, number_of};

verus! {

/// The character of a decimal digit.
pub open spec fn digit(d: int) -> char {
    if d == 0 {
        '0'
    } else if d == 1 {
        '1'
    } else if d == 2 {
        '2'
    } else if d == 3 {
        '3'
    } else if d == 4 {
        '4'
    } else if d == 5 {
        '5'
    } else if d == 6 {
        '6'
    } else if d == 7 {
        '7'
    } else if d == 8 {
        '8'
    } else {
        '9'
    }
}

/// A number in decimal, without leading zeros.
pub open spec fn decimal(n: int) -> Seq<char>
    decreases n,
{
    if n < 10 {
        seq![digit(n)]
    } else {
        decimal(n / 10).push(digit(n % 10))
    }
}

/// The text of a decimal digit.
fn digit_text(d: u64) -> (res: &'static str)
    requires
        d < 10,
    ensures
        res@ == seq![digit(d as int)],
{
    proof {
        reveal_strlit("0");
        reveal_strlit("1");
        reveal_strlit("2");
        reveal_strlit("3");
        reveal_strlit("4");
        reveal_strlit("5");
        reveal_strlit("6");
        reveal_strlit("7");
        reveal_strlit("8");
        reveal_strlit("9");
    }
    let res: &'static str = if d == 0 {
        "0"
    } else if d == 1 {
        "1"
    } else if d == 2 {
        "2"
    } else if d == 3 {
        "3"
    } else if d == 4 {
        "4"
    } else if d == 5 {
        "5"
    } else if d == 6 {
        "6"
    } else if d == 7 {
        "7"
    } else if d == 8 {
        "8"
    } else {
        "9"
    };
    assert(res@ =~= seq![digit(d as int)]);
    res
}

/// Writes a number in decimal.
pub fn decimal_text(n: u64) -> (res: String)
    ensures
        res@ == decimal(n as int),
        number_of(res@) == n,
    decreases n,
{
    proof {
        law_decimal_reads_back(n as int);
    }
    if n < 10 {
        String::from_str(digit_text(n))
    } else {
        let mut res = decimal_text(n / 10);
        res.append(digit_text(n % 10));
        assert(res@ =~= decimal(n as int));
        res
    }
}

/// Text `a` comes before text `b` in the order of their characters' code points.
pub open spec fn text_before(a: Seq<char>, b: Seq<char>) -> bool
    decreases a.len(),
{
    if b.len() == 0 {
        false
    } else if a.len() == 0 {
        true
    } else if a[0] == b[0] {
        text_before(a.drop_first(), b.drop_first())
    } else {
        (a[0] as int) < (b[0] as int)
    }
}

/// Texts that agree up to a place are ordered by what follows.
proof fn lemma_text_before_skip(a: Seq<char>, b: Seq<char>, n: int)
    requires
        0 <= n <= a.len(),
        n <= b.len(),
        a.take(n) == b.take(n),
    ensures
        text_before(a, b) == text_before(a.skip(n), b.skip(n)),
    decreases n,
{
    if n == 0 {
        assert(a.skip(0) =~= a);
        assert(b.skip(0) =~= b);
    } else {
        assert(a.take(n)[0] == a[0]);
        assert(b.take(n)[0] == b[0]);
        let (x, y) = (a.drop_first(), b.drop_first());
        assert(x.take(n - 1) =~= a.take(n).drop_first());
        assert(y.take(n - 1) =~= b.take(n).drop_first());
        lemma_text_before_skip(x, y, n - 1);
        assert(x.skip(n - 1) =~= a.skip(n));
        assert(y.skip(n - 1) =~= b.skip(n));
    }
}

/// The order of texts is strict and total.
pub proof fn lemma_text_order(a: Seq<char>, b: Seq<char>)
    ensures
        !text_before(a, a),
        text_before(a, b) ==> !text_before(b, a),
        a != b ==> text_before(a, b) || text_before(b, a),
    decreases a.len(),
{
    if a.len() > 0 {
        lemma_text_order(a.drop_first(), a.drop_first());
    }
    if a.len() > 0 && b.len() > 0 {
        lemma_text_order(a.drop_first(), b.drop_first());
        if a[0] == b[0] && a.drop_first() == b.drop_first() {
            assert(a =~= seq![a[0]] + a.drop_first());
            assert(b =~= seq![b[0]] + b.drop_first());
        }
    } else if a.len() == 0 && b.len() == 0 {
        assert(a =~= b);
    }
}

/// The order of texts is transitive.
pub proof fn lemma_text_order_transitive(a: Seq<char>, b: Seq<char>, c: Seq<char>)
    requires
        text_before(a, b),
        text_before(b, c),
    ensures
        text_before(a, c),
    decreases a.len(),
{
    if a.len() > 0 && b.len() > 0 && c.len() > 0 && a[0] == b[0] && b[0] == c[0] {
        lemma_text_order_transitive(a.drop_first(), b.drop_first(), c.drop_first());
    }
}

/// Whether text `a` comes before text `b`.
fn is_before(a: &String, b: &String) -> (res: bool)
    ensures
        res == text_before(a@, b@),
{
    let m: usize = a.as_str().unicode_len();
    let n: usize = b.as_str().unicode_len();
    let mut i: usize = 0;
    while i < m && i < n
        invariant
            m == a@.len(),
            n == b@.len(),
            i <= m,
            i <= n,
            a@.take(i as int) == b@.take(i as int),
        decreases m - i,
    {
        let x: char = a.as_str().get_char(i);
        let y: char = b.as_str().get_char(i);
        if x != y {
            proof {
                lemma_text_before_skip(a@, b@, i as int);
                assert(a@.skip(i as int)[0] == x);
                assert(b@.skip(i as int)[0] == y);
            }
            return (x as u32) < (y as u32);
        }
        assert(a@.take(i + 1) =~= a@.take(i as int).push(x));
        assert(b@.take(i + 1) =~= b@.take(i as int).push(y));
        i = i + 1;
    }
    proof {
        lemma_text_before_skip(a@, b@, i as int);
    }
    m < n
}

/// A list of names, in order and without repetition.
pub open spec fn strictly_ascending(list: Seq<Seq<char>>) -> bool {
    forall|i: int, j: int|
        0 <= i < j < list.len() ==> text_before(#[trigger] list[i], #[trigger] list[j])
}

/// The characters of a list of texts.
pub open spec fn texts(list: Seq<String>) -> Seq<Seq<char>> {
    Seq::new(list.len(), |i: int| list[i]@)
}

/// `sorted` holds the names of `list` in order, each once.
pub open spec fn is_sorted_unique(list: Seq<Seq<char>>, sorted: Seq<Seq<char>>) -> bool {
    &&& strictly_ascending(sorted)
    &&& forall|b: Seq<char>| #[trigger] sorted.contains(b) <==> list.contains(b)
}

/// Enters a name into a sorted list, unless it is there.
fn insert_name(sorted: &mut Vec<String>, name: &String)
    requires
        strictly_ascending(texts(old(sorted)@)),
    ensures
        strictly_ascending(texts(final(sorted)@)),
        forall|b: Seq<char>| #[trigger]
            texts(final(sorted)@).contains(b) <==> texts(old(sorted)@).contains(b) || b == name@,
{
    let ghost before = texts(sorted@);
    let mut at: usize = 0;
    while at < sorted.len() && is_before(&sorted[at], name)
        invariant
            before == texts(sorted@),
            at <= sorted@.len(),
            forall|j: int| 0 <= j < at ==> text_before(#[trigger] before[j], name@),
        decreases sorted@.len() - at,
    {
        at = at + 1;
    }
    if at < sorted.len() && sorted[at] == *name {
        assert(before[at as int] == name@);
        return;
    }
    sorted.insert(at, name.clone());
    proof {
        let after = texts(sorted@);
        assert(after =~= before.insert(at as int, name@));
        assert forall|i: int, j: int| 0 <= i < j < after.len() implies text_before(
            #[trigger] after[i],
            #[trigger] after[j],
        ) by {
            if at < before.len() {
                lemma_text_order(before[at as int], name@);
                if j > at && j - 1 > at {
                    lemma_text_order_transitive(name@, before[at as int], before[j - 1]);
                }
            }
        }
        assert forall|b: Seq<char>| #[trigger] after.contains(b) <==> before.contains(b) || b
            == name@ by {
            if before.contains(b) {
                let k = choose|k: int| 0 <= k < before.len() && before[k] == b;
                if k < at {
                    assert(after[k] == b);
                } else {
                    assert(after[k + 1] == b);
                }
            }
            assert(after[at as int] == name@);
            if after.contains(b) {
                let k = choose|k: int| 0 <= k < after.len() && after[k] == b;
                if k < at {
                    assert(before[k] == b);
                } else if k > at {
                    assert(before[k - 1] == b);
                }
            }
        }
    }
}

/// Sorts names and drops repetitions.
pub fn sorted_unique(list: &Vec<String>) -> (sorted: Vec<String>)
    ensures
        is_sorted_unique(texts(list@), texts(sorted@)),
{
    let mut sorted: Vec<String> = Vec::new();
    for i in 0..list.len()
        invariant
            strictly_ascending(texts(sorted@)),
            forall|b: Seq<char>| #[trigger]
                texts(sorted@).contains(b) <==> texts(list@).take(i as int).contains(b),
    {
        let ghost seen = texts(list@).take(i as int);
        insert_name(&mut sorted, &list[i]);
        assert(texts(list@).take(i + 1) =~= seen.push(list@[i as int]@));
        assert forall|b: Seq<char>| #[trigger] texts(sorted@).contains(b) <==> seen.push(
            list@[i as int]@,
        ).contains(b) by {
            if seen.contains(b) {
                let k = choose|k: int| 0 <= k < seen.len() && seen[k] == b;
                assert(seen.push(list@[i as int]@)[k] == b);
            }
            assert(seen.push(list@[i as int]@)[i as int] == list@[i as int]@);
        }
    }
    assert(texts(list@).take(list@.len() as int) =~= texts(list@));
    sorted
}

/// Names are put in order in one way only.
pub proof fn law_sorted_unique_is_unique(
    list: Seq<Seq<char>>,
    a: Seq<Seq<char>>,
    b: Seq<Seq<char>>,
)
    requires
        is_sorted_unique(list, a),
        is_sorted_unique(list, b),
    ensures
        a == b,
{
    lemma_sorted_prefix(list, a, b, a.len());
    lemma_same_length(list, a, b);
    lemma_same_length(list, b, a);
    assert(a =~= b);
}

/// A list that begins with another one and holds the same names is not longer.
proof fn lemma_same_length(list: Seq<Seq<char>>, short: Seq<Seq<char>>, long: Seq<Seq<char>>)
    requires
        is_sorted_unique(list, short),
        is_sorted_unique(list, long),
        forall|i: int| 0 <= i < short.len() && i < long.len() ==> short[i] == long[i],
    ensures
        long.len() <= short.len(),
{
    if short.len() < long.len() {
        let name = long[short.len() as int];
        assert(long.contains(name));
        assert(short.contains(name));
        let k = choose|k: int| 0 <= k < short.len() && short[k] == name;
        lemma_text_order(name, name);
        assert(text_before(long[k], long[short.len() as int]));
    }
}

proof fn lemma_sorted_prefix(
    list: Seq<Seq<char>>,
    a: Seq<Seq<char>>,
    b: Seq<Seq<char>>,
    n: nat,
)
    requires
        is_sorted_unique(list, a),
        is_sorted_unique(list, b),
        n <= a.len(),
    ensures
        forall|i: int| 0 <= i < n && i < b.len() ==> a[i] == b[i],
    decreases n,
{
    if n > 0 {
        let i = n - 1;
        lemma_sorted_prefix(list, a, b, i as nat);
        if i < b.len() {
            lemma_text_order(a[i], b[i]);
            assert(a.contains(a[i]) && b.contains(b[i]));
            assert(b.contains(a[i]) && a.contains(b[i]));
            let k = choose|k: int| 0 <= k < b.len() && b[k] == a[i];
            let l = choose|l: int| 0 <= l < a.len() && a[l] == b[i];
            lemma_text_order(a[i], a[i]);
            lemma_text_order(b[i], b[i]);
            if k < i {
                assert(text_before(a[k], a[i]));
            } else if k > i {
                assert(text_before(b[i], b[k]));
                if l < i {
                    assert(text_before(b[l], b[i]));
                } else if l > i {
                    assert(text_before(a[i], a[l]));
                }
            }
        }
    }
}

/// Texts one after the other with a comma between them.
pub open spec fn comma_joined(list: Seq<Seq<char>>) -> Seq<char>
    decreases list.len(),
{
    if list.len() == 0 {
        Seq::empty()
    } else if list.len() == 1 {
        list[0]
    } else {
        comma_joined(list.drop_last()) + ","@ + list.last()
    }
}

/// Joins texts with commas.
pub fn join_with_commas(list: &Vec<String>) -> (res: String)
    ensures
        res@ == comma_joined(texts(list@)),
{
    let mut res = String::new();
    for i in 0..list.len()
        invariant
            res@ == comma_joined(texts(list@).take(i as int)),
    {
        assert(texts(list@).take(i + 1).drop_last() =~= texts(list@).take(i as int));
        if i > 0 {
            res.append(",");
        }
        res.append(list[i].as_str());
        assert(res@ =~= comma_joined(texts(list@).take(i + 1)));
    }
    assert(texts(list@).take(list@.len() as int) =~= texts(list@));
    res
}

} // verus!
