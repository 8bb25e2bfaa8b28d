//! Sums over the squares of a set, and that they do not depend on the
//! order of the ranks.

use vstd::prelude::*;
use crate::masks::{lemma_mirror_has, Mask};

verus! {

/// The square on the same file with the ranks counted from the other
/// end.
pub open spec fn flip(i: int) -> int {
    i % 8 + 8 * (7 - i / 8)
}

/// Adds the number of a square to a sum.
pub open spec fn add_step(g: spec_fn(int) -> int) -> spec_fn(int, int) -> int {
    |acc: int, s: int| acc + g(s)
}

/// The sum of the numbers of the squares of a set.
pub open spec fn sum_over(m: Mask, g: spec_fn(int) -> int) -> int {
    m.fold(64, 0int, add_step(g))
}

/// The sum of the first `n` numbers.
pub open spec fn total(h: spec_fn(int) -> int, n: int) -> int
    decreases n,
{
    if n <= 0 {
        0
    } else {
        total(h, n - 1) + h(n - 1)
    }
}

/// The sum of the eight numbers of a rank.
pub open spec fn rank_sum(h: spec_fn(int) -> int, r: int) -> int {
    h(8 * r) + h(8 * r + 1) + h(8 * r + 2) + h(8 * r + 3) + h(8 * r + 4) + h(8 * r + 5) + h(
        8 * r + 6,
    ) + h(8 * r + 7)
}

/// The number of a square where it is in a set, and 0 elsewhere.
pub open spec fn within(m: Mask, g: spec_fn(int) -> int) -> spec_fn(int) -> int {
    |i: int|
        if m.has(i) {
            g(i)
        } else {
            0
        }
}

/// Flipping a square twice gives the square.
pub proof fn lemma_flip_twice(i: int)
    requires
        0 <= i < 64,
    ensures
        0 <= flip(i) < 64,
        flip(flip(i)) == i,
        flip(i) / 8 == 7 - i / 8,
        flip(i) % 8 == i % 8,
{
}

/// A sum over a set is the sum of the numbers within it.
pub proof fn lemma_sum_is_total(m: Mask, g: spec_fn(int) -> int, n: int)
    requires
        0 <= n <= 64,
    ensures
        m.fold(n, 0int, add_step(g)) == total(within(m, g), n),
    decreases n,
{
    if n > 0 {
        lemma_sum_is_total(m, g, n - 1);
    }
}

/// The sum up to the end of a rank is the sum up to its start and the
/// sum of the rank.
pub proof fn lemma_total_rank(h: spec_fn(int) -> int, r: int)
    requires
        0 <= r < 8,
    ensures
        total(h, 8 * r + 8) == total(h, 8 * r) + rank_sum(h, r),
{
    let b = 8 * r;
    assert(total(h, b + 1) == total(h, b) + h(b));
    assert(total(h, b + 2) == total(h, b + 1) + h(b + 1));
    assert(total(h, b + 3) == total(h, b + 2) + h(b + 2));
    assert(total(h, b + 4) == total(h, b + 3) + h(b + 3));
    assert(total(h, b + 5) == total(h, b + 4) + h(b + 4));
    assert(total(h, b + 6) == total(h, b + 5) + h(b + 5));
    assert(total(h, b + 7) == total(h, b + 6) + h(b + 6));
    assert(total(h, b + 8) == total(h, b + 7) + h(b + 7));
}

/// The sum of all 64 numbers is the sum of the sums of the ranks.
pub proof fn lemma_total_ranks(h: spec_fn(int) -> int)
    ensures
        total(h, 64) == rank_sum(h, 0) + rank_sum(h, 1) + rank_sum(h, 2) + rank_sum(h, 3)
            + rank_sum(h, 4) + rank_sum(h, 5) + rank_sum(h, 6) + rank_sum(h, 7),
{
    assert(total(h, 0) == 0);
    lemma_total_rank(h, 0);
    lemma_total_rank(h, 1);
    lemma_total_rank(h, 2);
    lemma_total_rank(h, 3);
    lemma_total_rank(h, 4);
    lemma_total_rank(h, 5);
    lemma_total_rank(h, 6);
    lemma_total_rank(h, 7);
}

/// The flipped square of a file and a rank.
pub proof fn lemma_flip_at(r: int, f: int)
    requires
        0 <= r < 8,
        0 <= f < 8,
    ensures
        flip(8 * r + f) == 8 * (7 - r) + f,
{
    assert((8 * r + f) % 8 == f);
    assert((8 * r + f) / 8 == r);
}

/// The sum of a rank of flipped numbers is the sum of the rank at the
/// other end.
pub proof fn lemma_rank_sum_flipped(h: spec_fn(int) -> int, k: spec_fn(int) -> int, r: int)
    requires
        0 <= r < 8,
        forall|i: int| 0 <= i < 64 ==> #[trigger] k(i) == h(flip(i)),
    ensures
        rank_sum(k, r) == rank_sum(h, 7 - r),
{
    lemma_flip_at(r, 0);
    lemma_flip_at(r, 1);
    lemma_flip_at(r, 2);
    lemma_flip_at(r, 3);
    lemma_flip_at(r, 4);
    lemma_flip_at(r, 5);
    lemma_flip_at(r, 6);
    lemma_flip_at(r, 7);
    assert(k(8 * r + 0) == h(flip(8 * r + 0)));
    assert(k(8 * r + 1) == h(flip(8 * r + 1)));
    assert(k(8 * r + 2) == h(flip(8 * r + 2)));
    assert(k(8 * r + 3) == h(flip(8 * r + 3)));
    assert(k(8 * r + 4) == h(flip(8 * r + 4)));
    assert(k(8 * r + 5) == h(flip(8 * r + 5)));
    assert(k(8 * r + 6) == h(flip(8 * r + 6)));
    assert(k(8 * r + 7) == h(flip(8 * r + 7)));
}

/// The sum of all 64 numbers does not depend on the order of the ranks.
pub proof fn lemma_total_flipped(h: spec_fn(int) -> int, k: spec_fn(int) -> int)
    requires
        forall|i: int| 0 <= i < 64 ==> #[trigger] k(i) == h(flip(i)),
    ensures
        total(k, 64) == total(h, 64),
{
    lemma_total_ranks(h);
    lemma_total_ranks(k);
    lemma_rank_sum_flipped(h, k, 0);
    lemma_rank_sum_flipped(h, k, 1);
    lemma_rank_sum_flipped(h, k, 2);
    lemma_rank_sum_flipped(h, k, 3);
    lemma_rank_sum_flipped(h, k, 4);
    lemma_rank_sum_flipped(h, k, 5);
    lemma_rank_sum_flipped(h, k, 6);
    lemma_rank_sum_flipped(h, k, 7);
}

/// The sum over a set with its ranks in the other order, of numbers
/// that are those of the flipped squares, is the sum over the set.
pub proof fn lemma_sum_mirrored(m: Mask, g: spec_fn(int) -> int, k: spec_fn(int) -> int)
    requires
        forall|s: int| 0 <= s < 64 && m.has(s) ==> #[trigger] k(flip(s)) == g(s),
    ensures
        sum_over(m.mirror_spec(), k) == sum_over(m, g),
{
    let mm = m.mirror_spec();
    lemma_sum_is_total(m, g, 64);
    lemma_sum_is_total(mm, k, 64);
    let h = within(m, g);
    let j = within(mm, k);
    assert forall|i: int| 0 <= i < 64 implies #[trigger] j(i) == h(flip(i)) by {
        lemma_mirror_has(m, i);
        lemma_flip_twice(i);
        if m.has(flip(i)) {
            assert(k(flip(flip(i))) == g(flip(i)));
        }
    }
    lemma_total_flipped(h, j);
}

/// The sums over a set of numbers that agree on its squares agree.
pub proof fn lemma_sum_same(m: Mask, g: spec_fn(int) -> int, k: spec_fn(int) -> int, n: int)
    requires
        0 <= n <= 64,
        forall|s: int| 0 <= s < 64 && m.has(s) ==> #[trigger] k(s) == g(s),
    ensures
        m.fold(n, 0int, add_step(k)) == m.fold(n, 0int, add_step(g)),
    decreases n,
{
    if n > 0 {
        lemma_sum_same(m, g, k, n - 1);
    }
}

/// Whether each step of a walk gives a list as many moves as the number
/// of its square says.
pub open spec fn adds<T>(f: spec_fn(Seq<T>, int) -> Seq<T>, c: spec_fn(int) -> int) -> bool {
    forall|acc: Seq<T>, s: int| 0 <= s < 64 ==> (#[trigger] f(acc, s)).len() == acc.len() + c(s)
}

/// A walk whose steps add to a list gives it as many moves as the sum
/// of the numbers of its squares.
pub proof fn lemma_fold_len<T>(
    m: Mask,
    n: int,
    init: Seq<T>,
    f: spec_fn(Seq<T>, int) -> Seq<T>,
    c: spec_fn(int) -> int,
)
    requires
        0 <= n <= 64,
        adds(f, c),
    ensures
        m.fold(n, init, f).len() == init.len() + m.fold(n, 0int, add_step(c)),
    decreases n,
{
    if n > 0 {
        lemma_fold_len(m, n - 1, init, f, c);
    }
}

} // verus!
