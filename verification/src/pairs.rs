//! Counting and numbering the unordered pairs of distinct nodes.
//!
//! The pairs `(a, b)` with `a < b < n` are numbered in lexicographic order:
//! `(0, 1), (0, 2), .., (0, n - 1), (1, 2), ..`. The number of a pair is its rank.

use vstd::prelude::*;
use vstd::set_lib::{lemma_int_range, lemma_subset_equality, set_int_range};

verus! {

/// The number of unordered pairs of distinct items among `n` items.
pub open spec fn pair_count(n: int) -> int {
    n * (n - 1) / 2
}

/// The number of pairs `(a, b)` with `a < b < n` and `a < row`.
pub open spec fn pairs_before_row(n: int, row: int) -> int
    decreases row,
{
    if row <= 0 {
        0
    } else {
        pairs_before_row(n, row - 1) + (n - row)
    }
}

/// The rank of the pair `(a, b)` among the pairs of `n` items.
pub open spec fn pair_rank(n: int, a: int, b: int) -> int {
    pairs_before_row(n, a) + (b - a - 1)
}

/// Whether `(a, b)` is one of the pairs of `n` items.
pub open spec fn is_pair(n: int, a: int, b: int) -> bool {
    0 <= a < b < n
}

/// Twice the number of pairs before a row, in closed form.
pub proof fn lemma_pairs_before_row_closed_form(n: int, row: int)
    requires
        0 <= row,
    ensures
        2 * pairs_before_row(n, row) == row * (2 * n - row - 1),
    decreases row,
{
    if row > 0 {
        lemma_pairs_before_row_closed_form(n, row - 1);
        assert((row - 1) * (2 * n - (row - 1) - 1) + 2 * (n - row) == row * (2 * n - row - 1))
            by (nonlinear_arith);
    } else {
        assert(row * (2 * n - row - 1) == 0) by (nonlinear_arith)
            requires
                row == 0,
        ;
    }
}

/// The rows of all `n` items together hold every pair.
pub proof fn lemma_all_rows_hold_pair_count(n: int)
    requires
        0 <= n,
    ensures
        pairs_before_row(n, n) == pair_count(n),
{
    lemma_pairs_before_row_closed_form(n, n);
    assert(n * (2 * n - n - 1) == n * (n - 1)) by (nonlinear_arith);
}

/// Later rows start at later ranks.
pub proof fn lemma_pairs_before_row_increases(n: int, low: int, high: int)
    requires
        0 <= low <= high <= n,
    ensures
        pairs_before_row(n, low) <= pairs_before_row(n, high),
    decreases high - low,
{
    if low < high {
        lemma_pairs_before_row_increases(n, low, high - 1);
    }
}

/// The rank of a pair lies in its row, and below the number of pairs.
pub proof fn lemma_pair_rank_in_row(n: int, a: int, b: int)
    requires
        is_pair(n, a, b),
    ensures
        pairs_before_row(n, a) <= pair_rank(n, a, b) < pairs_before_row(n, a + 1),
        0 <= pair_rank(n, a, b) < pair_count(n),
{
    lemma_pairs_before_row_increases(n, 0, a);
    lemma_pairs_before_row_increases(n, a + 1, n);
    lemma_all_rows_hold_pair_count(n);
}

/// A pair that comes first in lexicographic order has the lower rank.
pub proof fn lemma_pair_rank_increases(n: int, a: int, b: int, c: int, d: int)
    requires
        is_pair(n, a, b),
        is_pair(n, c, d),
        a < c || (a == c && b < d),
    ensures
        pair_rank(n, a, b) < pair_rank(n, c, d),
{
    if a < c {
        lemma_pair_rank_in_row(n, a, b);
        lemma_pairs_before_row_increases(n, a + 1, c);
    }
}

/// Two pairs of the same rank are the same pair.
pub proof fn lemma_pair_rank_injective(n: int, a: int, b: int, c: int, d: int)
    requires
        is_pair(n, a, b),
        is_pair(n, c, d),
        pair_rank(n, a, b) == pair_rank(n, c, d),
    ensures
        a == c,
        b == d,
{
    if a < c || (a == c && b < d) {
        lemma_pair_rank_increases(n, a, b, c, d);
    } else if c < a || (c == a && d < b) {
        lemma_pair_rank_increases(n, c, d, a, b);
    }
}

/// From three items on there are at least as many pairs as items.
pub proof fn lemma_pair_count_covers_items(n: int)
    requires
        3 <= n,
    ensures
        n <= pair_count(n),
{
    assert(n * (n - 1) >= 2 * n) by (nonlinear_arith)
        requires
            n >= 3,
    ;
}

/// As many different numbers below `bound` as there are numbers below `bound`
/// are all of them.
pub proof fn lemma_distinct_numbers_fill_range(numbers: Seq<usize>, bound: int)
    requires
        numbers.no_duplicates(),
        numbers.len() == bound,
        forall|k: int| 0 <= k < numbers.len() ==> numbers[k] < bound,
    ensures
        forall|number: usize| number < bound ==> numbers.contains(number),
{
    let wide = Seq::new(numbers.len(), |k: int| numbers[k] as int);
    assert(wide.no_duplicates());
    wide.unique_seq_to_set();
    lemma_int_range(0, bound);
    assert(wide.to_set().subset_of(set_int_range(0, bound))) by {
        assert forall|value: int| wide.to_set().contains(value) implies set_int_range(
            0,
            bound,
        ).contains(value) by {
            let k = choose|k: int| 0 <= k < wide.len() && wide[k] == value;
            assert(numbers[k] < bound);
        }
    }
    wide.lemma_cardinality_of_set();
    lemma_subset_equality(wide.to_set(), set_int_range(0, bound));
    assert forall|number: usize| number < bound implies numbers.contains(number) by {
        assert(set_int_range(0, bound).contains(number as int));
        assert(wide.to_set().contains(number as int));
        let k = choose|k: int| 0 <= k < wide.len() && wide[k] == number as int;
        assert(numbers[k] == number);
    }
}

/// `num_integer::binomial`, asked for the number of ways to pick two items out of
/// `n`: the number of pairs among `n` items.
///
/// It multiplies without a check: the number of pairs has to fit the result.
#[verifier::external_body]
pub(crate) fn binomial(n: usize, k: usize) -> (count: usize)
    requires
        k == 2,
        pair_count(n as int) <= usize::MAX,
    ensures
        count == pair_count(n as int),
{
    num_integer::binomial(n, k)
}

/// The number of pairs among `n` items, where a `usize` can hold it.
pub fn checked_pair_count(n: usize) -> (count: Option<usize>)
    ensures
        match count {
            Some(pairs) => pairs == pair_count(n as int),
            None => pair_count(n as int) > usize::MAX,
        },
{
    if n == 0 {
        return Some(binomial(n, 2));
    }
    let wide_n: u128 = n as u128;
    assert(wide_n * (wide_n - 1) <= 0xffff_ffff_ffff_ffff * 0xffff_ffff_ffff_ffff)
        by (nonlinear_arith)
        requires
            1 <= wide_n <= 0xffff_ffff_ffff_ffff,
    ;
    let wide_count: u128 = wide_n * (wide_n - 1) / 2;
    if wide_count <= usize::MAX as u128 {
        Some(binomial(n, 2))
    } else {
        None
    }
}

/// A product with a positive factor stays within a bound where the other factor
/// stays within the bound's share.
pub proof fn lemma_product_within_bound(factor: int, other: int, bound: int)
    requires
        factor > 0,
        other >= 0,
        bound >= 0,
    ensures
        factor * other <= bound <==> other <= bound / factor,
{
    vstd::arithmetic::div_mod::lemma_fundamental_div_mod(bound, factor);
    let share = bound / factor;
    if other <= share {
        assert(factor * other <= factor * share) by (nonlinear_arith)
            requires
                factor > 0,
                0 <= other <= share,
        ;
    } else {
        assert(factor * other >= factor * share + factor) by (nonlinear_arith)
            requires
                factor > 0,
                other >= share + 1,
        ;
    }
}

/// Whether the rows before `row` hold no more than `rank` pairs of `n` items.
fn row_starts_within(n: usize, row: usize, rank: usize) -> (within: bool)
    requires
        row < n,
    ensures
        within == (pairs_before_row(n as int, row as int) <= rank),
{
    if row == 0 {
        return true;
    }
    let width: u128 = 2 * (n as u128) - (row as u128) - 1;
    let bound: u128 = 2 * (rank as u128);
    proof {
        lemma_pairs_before_row_closed_form(n as int, row as int);
        lemma_product_within_bound(row as int, width as int, bound as int);
    }
    width <= bound / (row as u128)
}

/// The pair of the given rank among the pairs of `n` items.
pub fn pair_at(n: usize, rank: usize) -> (pair: (usize, usize))
    requires
        rank < pair_count(n as int),
    ensures
        is_pair(n as int, pair.0 as int, pair.1 as int),
        pair_rank(n as int, pair.0 as int, pair.1 as int) == rank,
{
    proof {
        lemma_all_rows_hold_pair_count(n as int);
    }
    let mut row: usize = 0;
    let mut beyond: usize = n - 1;
    while beyond - row > 1
        invariant
            row < beyond < n,
            pairs_before_row(n as int, row as int) <= rank < pairs_before_row(
                n as int,
                beyond as int,
            ),
        decreases beyond - row,
    {
        let middle: usize = row + (beyond - row) / 2;
        if row_starts_within(n, middle, rank) {
            row = middle;
        } else {
            beyond = middle;
        }
    }
    proof {
        lemma_pairs_before_row_closed_form(n as int, row as int);
    }
    let before: u128 = (row as u128) * (2 * (n as u128) - (row as u128) - 1) / 2;
    let offset: usize = rank - before as usize;
    (row, row + 1 + offset)
}

} // verus!
