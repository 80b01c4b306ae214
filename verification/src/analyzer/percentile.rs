//! Order statistics of the observed values: exact, from all of them.

use vstd::prelude::*;
use vstd::relations::{sorted_by, total_ordering};
use vstd::seq_lib::{lemma_multiset_commutative, lemma_sorted_unique, to_multiset_build};

verus! {

/// A kind of whole number that can be observed and put in order: the
/// latencies that are counted, and the signed numbers of milliseconds.
pub trait Number: Copy {
    /// The number that this value is.
    spec fn number(self) -> int;

    /// Whether this value is no greater than `other`.
    fn not_above(&self, other: &Self) -> (b: bool)
        ensures
            b == (self.number() <= other.number()),
    ;

    /// Two values that are the same number are the same value.
    proof fn lemma_number_is_the_value(a: Self, b: Self)
        requires
            a.number() == b.number(),
        ensures
            a == b,
    ;
}

impl Number for usize {
    open spec fn number(self) -> int {
        self as int
    }

    fn not_above(&self, other: &Self) -> (b: bool) {
        *self <= *other
    }

    proof fn lemma_number_is_the_value(a: Self, b: Self) {
    }
}

impl Number for i64 {
    open spec fn number(self) -> int {
        self as int
    }

    fn not_above(&self, other: &Self) -> (b: bool) {
        *self <= *other
    }

    proof fn lemma_number_is_the_value(a: Self, b: Self) {
    }
}

/// The order of the values: that of their numbers.
pub open spec fn leq<T: Number>() -> spec_fn(T, T) -> bool {
    |a: T, b: T| a.number() <= b.number()
}

/// `values` in ascending order.
pub open spec fn ascending<T: Number>(values: Seq<T>) -> Seq<T> {
    values.sort_by(leq::<T>())
}

/// The order of the values is a total order.
pub proof fn lemma_leq_is_total<T: Number>()
    ensures
        total_ordering(leq::<T>()),
{
    let r = leq::<T>();
    assert forall|x: T, y: T| #[trigger] r(x, y) && #[trigger] r(y, x) implies x == y by {
        T::lemma_number_is_the_value(x, y);
    }
}

/// The place, in ascending order, of the percentile `numerator /
/// denominator` among `count` values, by the nearest-rank method: one less
/// than `count` times the fraction, rounded up, and no less than `0` nor more
/// than `count - 1`.
pub open spec fn rank(count: nat, numerator: nat, denominator: nat) -> int {
    let raw = (count * numerator + denominator - 1) / (denominator as int) - 1;
    if raw < 0 {
        0
    } else if raw > count - 1 {
        count - 1
    } else {
        raw
    }
}

/// The percentile `numerator / denominator` of `values`: the value at its
/// rank in ascending order.
pub open spec fn percentile_of<T: Number>(values: Seq<T>, numerator: nat, denominator: nat) -> T {
    ascending(values)[rank(values.len(), numerator, denominator)]
}

/// The median of `values`: the middle one in ascending order, or, of an even
/// number of values, the mean of the two in the middle, rounded down.
pub open spec fn median_of(values: Seq<usize>) -> usize {
    let sorted = ascending(values);
    let n = sorted.len() as int;
    if n % 2 == 1 {
        sorted[n / 2]
    } else {
        ((sorted[n / 2 - 1] + sorted[n / 2]) / 2) as usize
    }
}

/// The greatest of `values`.
pub open spec fn max_of<T: Number>(values: Seq<T>) -> T
    decreases values.len(),
{
    if values.len() <= 1 {
        values[0]
    } else if values.last().number() >= max_of(values.drop_last()).number() {
        values.last()
    } else {
        max_of(values.drop_last())
    }
}

/// The least of `values`.
pub open spec fn min_of<T: Number>(values: Seq<T>) -> T
    decreases values.len(),
{
    if values.len() <= 1 {
        values[0]
    } else if values.last().number() <= min_of(values.drop_last()).number() {
        values.last()
    } else {
        min_of(values.drop_last())
    }
}

/// The sum of `values`.
pub open spec fn sum_of(values: Seq<usize>) -> nat
    decreases values.len(),
{
    if values.len() == 0 {
        0
    } else {
        sum_of(values.drop_last()) + values.last() as nat
    }
}

/// The ascending order of `values` is the one sequence that is sorted and
/// holds each value as often as `values` does.
pub proof fn lemma_ascending_is<T: Number>(values: Seq<T>, sorted: Seq<T>)
    requires
        sorted_by(sorted, leq::<T>()),
        sorted.to_multiset() == values.to_multiset(),
    ensures
        sorted == ascending(values),
{
    lemma_leq_is_total::<T>();
    values.lemma_sort_by_ensures(leq::<T>());
    lemma_sorted_unique(sorted, ascending(values), leq::<T>());
}

/// The ascending order is sorted, as long as `values` and holds its values.
pub proof fn lemma_ascending<T: Number>(values: Seq<T>)
    ensures
        sorted_by(ascending(values), leq::<T>()),
        ascending(values).len() == values.len(),
        ascending(values).to_multiset() == values.to_multiset(),
        forall|i: int| 0 <= i < values.len() ==> ascending(values).contains(#[trigger] values[i]),
        forall|i: int|
            0 <= i < values.len() ==> values.contains(#[trigger] ascending(values)[i]),
{
    broadcast use vstd::seq_lib::group_to_multiset_ensures;

    lemma_leq_is_total::<T>();
    values.lemma_sort_by_ensures(leq::<T>());
    let sorted = ascending(values);
    assert(sorted.to_multiset().len() == values.to_multiset().len());
    assert forall|i: int| 0 <= i < values.len() implies sorted.contains(#[trigger] values[i]) by {
        assert(values.to_multiset().contains(values[i]));
        assert(sorted.to_multiset().contains(values[i]));
    }
    assert forall|i: int| 0 <= i < values.len() implies values.contains(#[trigger] sorted[i]) by {
        assert(sorted.to_multiset().contains(sorted[i]));
        assert(values.to_multiset().contains(sorted[i]));
    }
}

/// The greatest value is one of the values and none is greater.
pub proof fn lemma_max_of<T: Number>(values: Seq<T>)
    requires
        values.len() > 0,
    ensures
        values.contains(max_of(values)),
        forall|i: int|
            0 <= i < values.len() ==> (#[trigger] values[i]).number() <= max_of(values).number(),
    decreases values.len(),
{
    if values.len() <= 1 {
        assert(values[0] == max_of(values));
    } else {
        let front = values.drop_last();
        lemma_max_of(front);
        let k = choose|k: int| 0 <= k < front.len() && front[k] == max_of(front);
        assert(values[k] == front[k]);
        assert(values[values.len() - 1] == values.last());
        assert forall|i: int| 0 <= i < values.len() implies (#[trigger] values[i]).number()
            <= max_of(values).number() by {
            if i < front.len() {
                assert(values[i] == front[i]);
            }
        }
    }
}

/// The least value is one of the values and none is less.
pub proof fn lemma_min_of<T: Number>(values: Seq<T>)
    requires
        values.len() > 0,
    ensures
        values.contains(min_of(values)),
        forall|i: int|
            0 <= i < values.len() ==> (#[trigger] values[i]).number() >= min_of(values).number(),
    decreases values.len(),
{
    if values.len() <= 1 {
        assert(values[0] == min_of(values));
    } else {
        let front = values.drop_last();
        lemma_min_of(front);
        let k = choose|k: int| 0 <= k < front.len() && front[k] == min_of(front);
        assert(values[k] == front[k]);
        assert(values[values.len() - 1] == values.last());
        assert forall|i: int| 0 <= i < values.len() implies (#[trigger] values[i]).number()
            >= min_of(values).number() by {
            if i < front.len() {
                assert(values[i] == front[i]);
            }
        }
    }
}

/// In ascending order the least value comes first and the greatest last.
pub proof fn lemma_ends_of_ascending<T: Number>(values: Seq<T>)
    requires
        values.len() > 0,
    ensures
        ascending(values).first() == min_of(values),
        ascending(values).last() == max_of(values),
{
    let sorted = ascending(values);
    lemma_ascending(values);
    lemma_max_of(values);
    lemma_min_of(values);
    let n = sorted.len() as int;
    let a = choose|a: int| 0 <= a < n && sorted[a] == max_of(values);
    let b = choose|b: int| 0 <= b < n && sorted[b] == min_of(values);
    assert(values.contains(sorted[n - 1]));
    assert(values.contains(sorted[0]));
    let ka = choose|k: int| 0 <= k < values.len() && values[k] == sorted[n - 1];
    let kb = choose|k: int| 0 <= k < values.len() && values[k] == sorted[0];
    assert(values[ka].number() <= max_of(values).number());
    assert(values[kb].number() >= min_of(values).number());
    if a < n - 1 {
        assert(leq::<T>()(sorted[a], sorted[n - 1]));
    }
    if 0 < b {
        assert(leq::<T>()(sorted[0], sorted[b]));
    }
    T::lemma_number_is_the_value(sorted[n - 1], max_of(values));
    T::lemma_number_is_the_value(sorted[0], min_of(values));
}

/// The percentile at the fraction one is the greatest value.
pub proof fn lemma_full_percentile_is_max<T: Number>(values: Seq<T>, denominator: nat)
    requires
        values.len() > 0,
        denominator > 0,
    ensures
        percentile_of(values, denominator, denominator) == max_of(values),
{
    let n = values.len();
    lemma_ends_of_ascending(values);
    lemma_ascending(values);
    assert((n * denominator + denominator - 1) / (denominator as int) == n) by (nonlinear_arith)
        requires
            denominator > 0,
    ;
}

/// Every percentile of a single value is that value.
pub proof fn lemma_percentile_of_single<T: Number>(value: T, numerator: nat, denominator: nat)
    ensures
        percentile_of(seq![value], numerator, denominator) == value,
{
    let values = seq![value];
    lemma_ascending(values);
    assert(values[0] == value);
    assert(ascending(values).contains(values[0]));
}

fn copy_range<T: Number>(values: &Vec<T>, from: usize, to: usize) -> (part: Vec<T>)
    requires
        from <= to <= values.len(),
    ensures
        part@ == values@.subrange(from as int, to as int),
{
    let mut part: Vec<T> = Vec::new();
    let mut i: usize = from;
    while i < to
        invariant
            from <= i <= to <= values.len(),
            part@ == values@.subrange(from as int, i as int),
        decreases to - i,
    {
        part.push(values[i]);
        assert(part@ =~= values@.subrange(from as int, i + 1));
        i += 1;
    }
    part
}

fn merge<T: Number>(left: &Vec<T>, right: &Vec<T>) -> (merged: Vec<T>)
    requires
        sorted_by(left@, leq::<T>()),
        sorted_by(right@, leq::<T>()),
    ensures
        sorted_by(merged@, leq::<T>()),
        merged@.to_multiset() == left@.to_multiset().add(right@.to_multiset()),
{
    broadcast use vstd::multiset::group_multiset_axioms;

    let mut merged: Vec<T> = Vec::new();
    let mut i: usize = 0;
    let mut j: usize = 0;
    assert(left@.take(0) =~= Seq::<T>::empty());
    assert(right@.take(0) =~= Seq::<T>::empty());
    proof {
        lemma_multiset_commutative(merged@, merged@);
        assert(merged@ + merged@ =~= merged@);
    }
    while i < left.len() || j < right.len()
        invariant
            i <= left.len(),
            j <= right.len(),
            sorted_by(left@, leq::<T>()),
            sorted_by(right@, leq::<T>()),
            sorted_by(merged@, leq::<T>()),
            merged@.to_multiset() == left@.take(i as int).to_multiset().add(
                right@.take(j as int).to_multiset(),
            ),
            forall|k: int|
                0 <= k < merged.len() ==> (i < left.len() ==> (#[trigger] merged[k]).number()
                    <= left[i as int].number()) && (j < right.len() ==> merged[k].number()
                    <= right[j as int].number()),
        decreases left.len() - i + right.len() - j,
    {
        let ghost before = merged@;
        if j >= right.len() || (i < left.len() && left[i].not_above(&right[j])) {
            let value = left[i];
            merged.push(value);
            proof {
                assert(left@.take(i + 1) =~= left@.take(i as int).push(value));
                assert(merged@ == before.push(value));
                to_multiset_build(before, value);
                to_multiset_build(left@.take(i as int), value);
                assert(merged@.to_multiset() =~= left@.take(i + 1).to_multiset().add(
                    right@.take(j as int).to_multiset(),
                ));
                assert forall|a: int, b: int| 0 <= a < b < merged@.len() implies #[trigger] leq::<T>()(
                    merged@[a],
                    merged@[b],
                ) by {
                    if b < before.len() {
                        assert(leq::<T>()(before[a], before[b]));
                    } else {
                        assert(merged@[a] == before[a]);
                    }
                }
                if i + 1 < left.len() {
                    assert(leq::<T>()(left@[i as int], left@[i + 1]));
                    assert forall|k: int| 0 <= k < merged.len() implies (
                    #[trigger] merged[k]).number() <= left[i + 1].number() by {
                        if k < before.len() {
                            assert(merged[k] == before[k]);
                        }
                    }
                }
            }
            i += 1;
        } else {
            let value = right[j];
            merged.push(value);
            proof {
                assert(right@.take(j + 1) =~= right@.take(j as int).push(value));
                assert(merged@ == before.push(value));
                to_multiset_build(before, value);
                to_multiset_build(right@.take(j as int), value);
                assert(merged@.to_multiset() =~= left@.take(i as int).to_multiset().add(
                    right@.take(j + 1).to_multiset(),
                ));
                assert forall|a: int, b: int| 0 <= a < b < merged@.len() implies #[trigger] leq::<T>()(
                    merged@[a],
                    merged@[b],
                ) by {
                    if b < before.len() {
                        assert(leq::<T>()(before[a], before[b]));
                    } else {
                        assert(merged@[a] == before[a]);
                    }
                }
                if j + 1 < right.len() {
                    assert(leq::<T>()(right@[j as int], right@[j + 1]));
                    assert forall|k: int| 0 <= k < merged.len() implies (
                    #[trigger] merged[k]).number() <= right[j + 1].number() by {
                        if k < before.len() {
                            assert(merged[k] == before[k]);
                        }
                    }
                }
            }
            j += 1;
        }
    }
    assert(left@.take(i as int) =~= left@);
    assert(right@.take(j as int) =~= right@);
    merged
}

fn merge_sort<T: Number>(values: &Vec<T>) -> (sorted: Vec<T>)
    ensures
        sorted_by(sorted@, leq::<T>()),
        sorted@.to_multiset() == values@.to_multiset(),
    decreases values.len(),
{
    if values.len() <= 1 {
        let sorted = copy_range(values, 0, values.len());
        assert(sorted@ =~= values@);
        return sorted;
    }
    let middle: usize = values.len() / 2;
    let left = copy_range(values, 0, middle);
    let right = copy_range(values, middle, values.len());
    proof {
        assert(values@ =~= left@ + right@);
        lemma_multiset_commutative(left@, right@);
    }
    let left_sorted = merge_sort(&left);
    let right_sorted = merge_sort(&right);
    merge(&left_sorted, &right_sorted)
}

/// The values of `data` in ascending order.
pub fn sorted<T: Number>(data: &Vec<T>) -> (in_order: Vec<T>)
    ensures
        in_order@ == ascending(data@),
{
    let in_order = merge_sort(data);
    proof {
        lemma_ascending_is(data@, in_order@);
    }
    in_order
}

pub(crate) fn rank_in(count: usize, numerator: u64, denominator: u64) -> (index: usize)
    requires
        count > 0,
        denominator > 0,
    ensures
        index == rank(count as nat, numerator as nat, denominator as nat),
        index < count,
{
    assert(count * numerator + denominator - 1 <= u128::MAX) by (nonlinear_arith)
        requires
            count <= u64::MAX,
            numerator <= u64::MAX,
            denominator <= u64::MAX,
    ;
    assert(count * numerator >= 0) by (nonlinear_arith);
    let scaled: u128 = count as u128 * numerator as u128 + (denominator as u128 - 1);
    let ceiling: u128 = scaled / denominator as u128;
    if ceiling == 0 {
        0
    } else if ceiling - 1 > (count - 1) as u128 {
        count - 1
    } else {
        (ceiling - 1) as usize
    }
}

/// The percentile `numerator / denominator` of `data`, by the nearest-rank
/// method.
pub fn percentile(data: &Vec<i64>, numerator: u64, denominator: u64) -> (value: i64)
    requires
        data.len() > 0,
        denominator > 0,
    ensures
        value == percentile_of(data@, numerator as nat, denominator as nat),
{
    let in_order = sorted(data);
    proof {
        lemma_ascending(data@);
    }
    in_order[rank_in(data.len(), numerator, denominator)]
}

/// The value of `in_order`, which is in ascending order, that is the median.
pub(crate) fn median_of_sorted(in_order: &Vec<usize>, Ghost(values): Ghost<Seq<usize>>) -> (value: usize)
    requires
        in_order@ == ascending(values),
        in_order.len() > 0,
    ensures
        value == median_of(values),
{
    let n = in_order.len();
    if n % 2 == 1 {
        in_order[n / 2]
    } else {
        let low = in_order[n / 2 - 1] as u128;
        let high = in_order[n / 2] as u128;
        ((low + high) / 2) as usize
    }
}

/// The median of `data`.
pub fn median(data: &Vec<usize>) -> (value: usize)
    requires
        data.len() > 0,
    ensures
        value == median_of(data@),
{
    let in_order = sorted(data);
    proof {
        lemma_ascending(data@);
    }
    median_of_sorted(&in_order, Ghost(data@))
}

} // verus!
