//! What holds of the starting arrays of Chess960: the pieces that each
//! holds, where the bishops, the king and the rooks stand, and that the
//! 960 numbers give 960 arrays.

use vstd::prelude::*;
use crate::chess960::{
    chess_960_rank, dark_square, knight_slots, light_square, nth_free, put, with_bishops,
    with_king, with_knight, with_knights, with_queen, with_rook,
};
use crate::enums::Piece;

verus! {

/// How many squares of a rank from `from` up to, not including, `to`
/// hold `x`.
pub open spec fn count_in(rank: Seq<Option<Piece>>, x: Option<Piece>, from: int, to: int) -> int
    decreases to - from,
{
    if from >= to {
        0
    } else {
        (if rank[from] == x {
            1int
        } else {
            0int
        }) + count_in(rank, x, from + 1, to)
    }
}

/// A count is not negative and not more than the squares counted.
pub proof fn lemma_count_bounds(rank: Seq<Option<Piece>>, x: Option<Piece>, from: int, to: int)
    requires
        from <= to,
    ensures
        0 <= count_in(rank, x, from, to) <= to - from,
    decreases to - from,
{
    if from < to {
        lemma_count_bounds(rank, x, from + 1, to);
    }
}

/// A count over a stretch is the sum of the counts over its two parts.
pub proof fn lemma_count_split(
    rank: Seq<Option<Piece>>,
    x: Option<Piece>,
    from: int,
    mid: int,
    to: int,
)
    requires
        from <= mid <= to,
    ensures
        count_in(rank, x, from, to) == count_in(rank, x, from, mid) + count_in(rank, x, mid, to),
    decreases mid - from,
{
    if from < mid {
        lemma_count_split(rank, x, from + 1, mid, to);
    }
}

/// What a new piece on one square does to a count.
pub proof fn lemma_count_update(
    rank: Seq<Option<Piece>>,
    i: int,
    v: Option<Piece>,
    x: Option<Piece>,
    from: int,
    to: int,
)
    requires
        0 <= from <= to <= rank.len(),
        0 <= i < rank.len(),
    ensures
        count_in(rank.update(i, v), x, from, to) == count_in(rank, x, from, to) + (if from <= i
            < to {
            (if v == x {
                1int
            } else {
                0int
            }) - (if rank[i] == x {
                1int
            } else {
                0int
            })
        } else {
            0int
        }),
    decreases to - from,
{
    if from < to {
        lemma_count_update(rank, i, v, x, from + 1, to);
    }
}

/// Where no square is counted free, every square holds a piece.
pub proof fn lemma_none_free(rank: Seq<Option<Piece>>, from: int, to: int)
    requires
        0 <= from <= to <= rank.len(),
        count_in(rank, None, from, to) == 0,
    ensures
        forall|j: int| from <= j < to ==> rank[j].is_some(),
    decreases to - from,
{
    if from < to {
        lemma_count_bounds(rank, None, from + 1, to);
        lemma_none_free(rank, from + 1, to);
    }
}

/// The free square that has `n` free squares before it, where there are
/// more than `n` free squares: it is free, and `n` free squares come
/// before it.
pub proof fn lemma_nth_free(rank: Seq<Option<Piece>>, from: int, n: nat)
    requires
        0 <= from <= rank.len(),
    ensures
        n < count_in(rank, None, from, rank.len() as int) ==> {
            let i = nth_free(rank, from, n);
            &&& from <= i < rank.len()
            &&& rank[i].is_none()
            &&& count_in(rank, None, from, i) == n
        },
        n >= count_in(rank, None, from, rank.len() as int) ==> nth_free(rank, from, n)
            == rank.len(),
    decreases rank.len() - from,
{
    let len = rank.len() as int;
    if from < len {
        lemma_count_bounds(rank, None, from + 1, len);
        if rank[from].is_none() {
            if n > 0 {
                lemma_nth_free(rank, from + 1, (n - 1) as nat);
                let i = nth_free(rank, from + 1, (n - 1) as nat);
                if n < count_in(rank, None, from, len) {
                    lemma_count_split(rank, None, from, from + 1, i);
                    assert(count_in(rank, None, from, from + 1) == 1 + count_in(
                        rank,
                        None,
                        from + 1,
                        from + 1,
                    ));
                }
            }
        } else {
            lemma_nth_free(rank, from + 1, n);
            let i = nth_free(rank, from + 1, n);
            if n < count_in(rank, None, from, len) {
                lemma_count_split(rank, None, from, from + 1, i);
                assert(count_in(rank, None, from, from + 1) == 0 + count_in(
                    rank,
                    None,
                    from + 1,
                    from + 1,
                ));
            }
        }
    }
}

/// A piece put on a rank with more than `n` free squares goes to a free
/// square with `n` free squares before it, and leaves the other squares
/// as they were: the rank has one free square less and one such piece
/// more.
pub proof fn lemma_put(rank: Seq<Option<Piece>>, n: nat, piece: Piece)
    requires
        n < count_in(rank, None, 0, rank.len() as int),
    ensures
        ({
            let i = nth_free(rank, 0, n);
            let after = put(rank, n, piece);
            &&& 0 <= i < rank.len()
            &&& rank[i].is_none()
            &&& count_in(rank, None, 0, i) == n
            &&& after == rank.update(i, Some(piece))
            &&& after.len() == rank.len()
            &&& forall|x: Option<Piece>| #[trigger]
                count_in(after, x, 0, rank.len() as int) == count_in(rank, x, 0, rank.len() as int)
                    + (if x == Some(piece) {
                    1int
                } else {
                    0int
                }) - (if x.is_none() {
                    1int
                } else {
                    0int
                })
        }),
{
    lemma_nth_free(rank, 0, n);
    let i = nth_free(rank, 0, n);
    let after = put(rank, n, piece);
    assert forall|x: Option<Piece>| #[trigger]
        count_in(after, x, 0, rank.len() as int) == count_in(rank, x, 0, rank.len() as int) + (if x
            == Some(piece) {
            1int
        } else {
            0int
        }) - (if x.is_none() {
            1int
        } else {
            0int
        }) by {
        lemma_count_update(rank, i, Some(piece), x, 0, rank.len() as int);
    }
}

/// The square of the queen.
pub open spec fn queen_square(n: int) -> int {
    nth_free(with_bishops(n), 0, ((n / 16) % 6) as nat)
}

/// The square of the knight that is put first.
pub open spec fn first_knight_square(n: int) -> int {
    nth_free(with_queen(n), 0, knight_slots(n / 96).0)
}

/// The square of the knight that is put second.
pub open spec fn second_knight_square(n: int) -> int {
    nth_free(with_knight(n), 0, knight_slots(n / 96).1)
}

/// The square of the rook that is put first.
pub open spec fn first_rook_square(n: int) -> int {
    nth_free(with_knights(n), 0, 0)
}

/// The square of the king.
pub open spec fn king_square(n: int) -> int {
    nth_free(with_rook(n), 0, 0)
}

/// The square of the rook that is put second.
pub open spec fn second_rook_square(n: int) -> int {
    nth_free(with_king(n), 0, 0)
}

/// How many squares of a rank of eight hold `x`, where `free` are free,
/// and there are `bishops`, `queens`, `knights`, `rooks` and `kings`.
pub open spec fn holds(
    rank: Seq<Option<Piece>>,
    free: int,
    bishops: int,
    queens: int,
    knights: int,
    rooks: int,
    kings: int,
) -> bool {
    &&& rank.len() == 8
    &&& forall|x: Option<Piece>| #[trigger]
        count_in(rank, x, 0, 8) == (match x {
            None => free,
            Some(Piece::Bishop) => bishops,
            Some(Piece::Queen) => queens,
            Some(Piece::Knight) => knights,
            Some(Piece::Rook) => rooks,
            Some(Piece::King) => kings,
            Some(Piece::Pawn) => 0,
        })
}

/// The rank with the bishops: they stand on a light and on a dark square
/// and nothing else stands on it.
pub proof fn lemma_with_bishops(n: int)
    requires
        0 <= n < 960,
    ensures
        ({
            let r = with_bishops(n);
            let l = light_square(n);
            let d = dark_square(n);
            &&& 0 <= l < 8 && l % 2 == 1
            &&& 0 <= d < 8 && d % 2 == 0
            &&& forall|j: int|
                0 <= j < 8 ==> #[trigger] r[j] == (if j == l || j == d {
                    Some(Piece::Bishop)
                } else {
                    None
                })
            &&& holds(r, 6, 2, 0, 0, 0, 0)
        }),
{
    let empty = Seq::new(8, |i: int| None::<Piece>);
    let l = light_square(n);
    let d = dark_square(n);
    let light = empty.update(l, Some(Piece::Bishop));
    let r = with_bishops(n);
    assert(r == light.update(d, Some(Piece::Bishop)));
    assert forall|x: Option<Piece>| #[trigger]
        count_in(r, x, 0, 8) == (match x {
            None => 6int,
            Some(Piece::Bishop) => 2,
            _ => 0,
        }) by {
        reveal_with_fuel(count_in, 9);
        assert(count_in(empty, x, 0, 8) == (if x.is_none() {
            8int
        } else {
            0int
        }));
        lemma_count_update(empty, l, Some(Piece::Bishop), x, 0, 8);
        lemma_count_update(light, d, Some(Piece::Bishop), x, 0, 8);
    }
}

/// The rank with the queen: she stands on a square that was free.
pub proof fn lemma_with_queen(n: int)
    requires
        0 <= n < 960,
    ensures
        ({
            let r = with_queen(n);
            let q = queen_square(n);
            &&& 0 <= q < 8
            &&& with_bishops(n)[q].is_none()
            &&& count_in(with_bishops(n), None, 0, q) == (n / 16) % 6
            &&& r == with_bishops(n).update(q, Some(Piece::Queen))
            &&& holds(r, 5, 2, 1, 0, 0, 0)
        }),
{
    lemma_with_bishops(n);
    lemma_put(with_bishops(n), ((n / 16) % 6) as nat, Piece::Queen);
}

/// The rank with the first knight.
pub proof fn lemma_with_knight(n: int)
    requires
        0 <= n < 960,
    ensures
        ({
            let r = with_knight(n);
            let k = first_knight_square(n);
            &&& 0 <= k < 8
            &&& with_queen(n)[k].is_none()
            &&& count_in(with_queen(n), None, 0, k) == knight_slots(n / 96).0
            &&& r == with_queen(n).update(k, Some(Piece::Knight))
            &&& holds(r, 4, 2, 1, 1, 0, 0)
        }),
{
    lemma_with_queen(n);
    lemma_put(with_queen(n), knight_slots(n / 96).0, Piece::Knight);
}

/// The rank with both knights: the second stands behind the first.
pub proof fn lemma_with_knights(n: int)
    requires
        0 <= n < 960,
    ensures
        ({
            let r = with_knights(n);
            let k = second_knight_square(n);
            &&& first_knight_square(n) < k < 8
            &&& with_knight(n)[k].is_none()
            &&& count_in(with_knight(n), None, 0, k) == knight_slots(n / 96).1
            &&& r == with_knight(n).update(k, Some(Piece::Knight))
            &&& holds(r, 3, 2, 1, 2, 0, 0)
        }),
{
    lemma_with_knight(n);
    lemma_put(with_knight(n), knight_slots(n / 96).1, Piece::Knight);
    let first = first_knight_square(n);
    let k = second_knight_square(n);
    let before = with_queen(n);
    if k < first {
        lemma_count_update(before, first, Some(Piece::Knight), None, 0, k);
        lemma_count_split(before, None, 0, k, first);
        lemma_count_bounds(before, None, k + 1, first);
        assert(count_in(before, None, k, first) == 1 + count_in(before, None, k + 1, first));
    }
}

/// The rank with the first rook: nothing is free before it.
pub proof fn lemma_with_rook(n: int)
    requires
        0 <= n < 960,
    ensures
        ({
            let r = with_rook(n);
            let k = first_rook_square(n);
            &&& 0 <= k < 8
            &&& with_knights(n)[k].is_none()
            &&& r == with_knights(n).update(k, Some(Piece::Rook))
            &&& forall|j: int| 0 <= j <= k ==> (#[trigger] r[j]).is_some()
            &&& holds(r, 2, 2, 1, 2, 1, 0)
        }),
{
    lemma_with_knights(n);
    lemma_put(with_knights(n), 0, Piece::Rook);
    lemma_none_free(with_knights(n), 0, first_rook_square(n));
}

/// The rank with the king: it stands behind the first rook, and nothing
/// is free before it.
pub proof fn lemma_with_king(n: int)
    requires
        0 <= n < 960,
    ensures
        ({
            let r = with_king(n);
            let k = king_square(n);
            &&& first_rook_square(n) < k < 8
            &&& with_rook(n)[k].is_none()
            &&& r == with_rook(n).update(k, Some(Piece::King))
            &&& forall|j: int| 0 <= j <= k ==> (#[trigger] r[j]).is_some()
            &&& holds(r, 1, 2, 1, 2, 1, 1)
        }),
{
    lemma_with_rook(n);
    lemma_put(with_rook(n), 0, Piece::King);
    lemma_none_free(with_rook(n), 0, king_square(n));
}

/// The whole rank: the second rook stands behind the king.
pub proof fn lemma_whole_rank(n: int)
    requires
        0 <= n < 960,
    ensures
        ({
            let r = chess_960_rank(n);
            let k = second_rook_square(n);
            &&& king_square(n) < k < 8
            &&& with_king(n)[k].is_none()
            &&& r == with_king(n).update(k, Some(Piece::Rook))
            &&& holds(r, 0, 2, 1, 2, 2, 1)
        }),
{
    lemma_with_king(n);
    lemma_put(with_king(n), 0, Piece::Rook);
}

/// What stands on a square of the array of a number below 960, by the
/// squares that the number gives its pieces.
pub open spec fn stands_on(n: int, j: int) -> Option<Piece> {
    if j == light_square(n) || j == dark_square(n) {
        Some(Piece::Bishop)
    } else if j == queen_square(n) {
        Some(Piece::Queen)
    } else if j == first_knight_square(n) || j == second_knight_square(n) {
        Some(Piece::Knight)
    } else if j == king_square(n) {
        Some(Piece::King)
    } else {
        Some(Piece::Rook)
    }
}

/// Every piece of an array stands on the square that the number gives
/// it; the knights stand in the order in which they are put, and the
/// king stands between the rooks.
pub proof fn lemma_squares(n: int)
    requires
        0 <= n < 960,
    ensures
        forall|j: int| 0 <= j < 8 ==> #[trigger] chess_960_rank(n)[j] == stands_on(n, j),
        chess_960_rank(n).len() == 8,
        0 <= light_square(n) < 8 && light_square(n) % 2 == 1,
        0 <= dark_square(n) < 8 && dark_square(n) % 2 == 0,
        0 <= queen_square(n) < 8,
        0 <= first_knight_square(n) < second_knight_square(n) < 8,
        0 <= first_rook_square(n) < king_square(n) < second_rook_square(n) < 8,
        chess_960_rank(n)[first_rook_square(n)] == Some(Piece::Rook),
        chess_960_rank(n)[second_rook_square(n)] == Some(Piece::Rook),
        chess_960_rank(n)[king_square(n)] == Some(Piece::King),
        chess_960_rank(n)[queen_square(n)] == Some(Piece::Queen),
        chess_960_rank(n)[first_knight_square(n)] == Some(Piece::Knight),
        chess_960_rank(n)[second_knight_square(n)] == Some(Piece::Knight),
{
    lemma_with_bishops(n);
    lemma_with_queen(n);
    lemma_with_knight(n);
    lemma_with_knights(n);
    lemma_with_rook(n);
    lemma_with_king(n);
    lemma_whole_rank(n);
    let r = chess_960_rank(n);
    assert forall|j: int| 0 <= j < 8 implies #[trigger] r[j] == stands_on(n, j) by {
        lemma_count_bounds(r, None, 0, j);
        lemma_count_bounds(r, None, j + 1, 8);
        lemma_count_split(r, None, 0, j, 8);
        assert(count_in(r, None, j, 8) == (if r[j].is_none() {
            1int
        } else {
            0int
        }) + count_in(r, None, j + 1, 8));
    }
}

/// Every square of a starting array holds a piece.
pub proof fn lemma_array_full(frcn: int)
    ensures
        chess_960_rank(frcn).len() == 8,
        forall|j: int| 0 <= j < 8 ==> (#[trigger] chess_960_rank(frcn)[j]).is_some(),
{
    let n = frcn % 960;
    assert(chess_960_rank(frcn) == chess_960_rank(n));
    lemma_squares(n);
    assert forall|j: int| 0 <= j < 8 implies (#[trigger] chess_960_rank(frcn)[j]).is_some() by {
        assert(chess_960_rank(n)[j] == stands_on(n, j));
    }
}

/// Every starting array holds a king, a queen, two rooks, two bishops
/// and two knights, and nothing else.
pub proof fn lemma_array_pieces(frcn: int)
    ensures
        chess_960_rank(frcn).len() == 8,
        count_in(chess_960_rank(frcn), Some(Piece::King), 0, 8) == 1,
        count_in(chess_960_rank(frcn), Some(Piece::Queen), 0, 8) == 1,
        count_in(chess_960_rank(frcn), Some(Piece::Rook), 0, 8) == 2,
        count_in(chess_960_rank(frcn), Some(Piece::Bishop), 0, 8) == 2,
        count_in(chess_960_rank(frcn), Some(Piece::Knight), 0, 8) == 2,
        count_in(chess_960_rank(frcn), Some(Piece::Pawn), 0, 8) == 0,
        count_in(chess_960_rank(frcn), None, 0, 8) == 0,
{
    let n = frcn % 960;
    assert(chess_960_rank(frcn) == chess_960_rank(n));
    lemma_whole_rank(n);
}

/// The bishops of every starting array stand on squares of different
/// shade.
pub proof fn lemma_bishops_of_both_shades(frcn: int)
    ensures
        exists|l: int, d: int|
            0 <= l < 8 && 0 <= d < 8 && l % 2 == 1 && d % 2 == 0 && #[trigger] chess_960_rank(
                frcn,
            )[l] == Some(Piece::Bishop) && #[trigger] chess_960_rank(frcn)[d] == Some(
                Piece::Bishop,
            ),
{
    let n = frcn % 960;
    assert(chess_960_rank(frcn) == chess_960_rank(n));
    lemma_squares(n);
    let l = light_square(n);
    let d = dark_square(n);
    assert(chess_960_rank(frcn)[l] == Some(Piece::Bishop));
    assert(chess_960_rank(frcn)[d] == Some(Piece::Bishop));
}

/// The king of every starting array stands between the rooks.
pub proof fn lemma_king_between_rooks(frcn: int)
    ensures
        exists|a: int, k: int, b: int|
            0 <= a < k < b < 8 && #[trigger] chess_960_rank(frcn)[a] == Some(Piece::Rook)
                && #[trigger] chess_960_rank(frcn)[k] == Some(Piece::King)
                && #[trigger] chess_960_rank(frcn)[b] == Some(Piece::Rook),
{
    let n = frcn % 960;
    assert(chess_960_rank(frcn) == chess_960_rank(n));
    lemma_squares(n);
    let a = first_rook_square(n);
    let k = king_square(n);
    let b = second_rook_square(n);
    assert(chess_960_rank(frcn)[a] == Some(Piece::Rook));
    assert(chess_960_rank(frcn)[k] == Some(Piece::King));
    assert(chess_960_rank(frcn)[b] == Some(Piece::Rook));
}

/// The arrays repeat after 960 numbers.
pub proof fn lemma_arrays_repeat(frcn: int)
    ensures
        chess_960_rank(frcn + 960) == chess_960_rank(frcn),
{
    assert((frcn + 960) % 960 == frcn % 960);
}

/// Numbers below 960 with the same array have the same bishops, the
/// same queen and the same knights.
proof fn lemma_same_parts(a: int, b: int)
    requires
        0 <= a < 960,
        0 <= b < 960,
        chess_960_rank(a) == chess_960_rank(b),
    ensures
        a % 4 == b % 4,
        (a / 4) % 4 == (b / 4) % 4,
        (a / 16) % 6 == (b / 16) % 6,
        knight_slots(a / 96) == knight_slots(b / 96),
{
    lemma_squares(a);
    lemma_squares(b);
    let r = chess_960_rank(a);
    assert(r[light_square(a)] == stands_on(b, light_square(a)));
    assert(r[dark_square(a)] == stands_on(b, dark_square(a)));
    assert(light_square(a) == light_square(b));
    assert(dark_square(a) == dark_square(b));
    assert(with_bishops(a) == with_bishops(b));
    assert(r[queen_square(a)] == stands_on(b, queen_square(a)));
    assert(queen_square(a) == queen_square(b));
    lemma_with_queen(a);
    lemma_with_queen(b);
    assert(with_queen(a) == with_queen(b));
    assert(r[first_knight_square(a)] == stands_on(b, first_knight_square(a)));
    assert(r[second_knight_square(a)] == stands_on(b, second_knight_square(a)));
    assert(r[first_knight_square(b)] == stands_on(a, first_knight_square(b)));
    assert(r[second_knight_square(b)] == stands_on(a, second_knight_square(b)));
    assert(first_knight_square(a) == first_knight_square(b));
    assert(second_knight_square(a) == second_knight_square(b));
    lemma_with_knight(a);
    lemma_with_knight(b);
    assert(with_knight(a) == with_knight(b));
    lemma_with_knights(a);
    lemma_with_knights(b);
}

/// The 960 numbers give 960 arrays: no two of them give the same.
pub proof fn lemma_arrays_differ(a: int, b: int)
    requires
        0 <= a < 960,
        0 <= b < 960,
        a != b,
    ensures
        chess_960_rank(a) != chess_960_rank(b),
{
    if chess_960_rank(a) == chess_960_rank(b) {
        lemma_same_parts(a, b);
        assert(a / 96 == b / 96);
        assert(a / 16 == (a / 96) * 6 + (a / 16) % 6);
        assert(b / 16 == (b / 96) * 6 + (b / 16) % 6);
        assert(a / 4 == (a / 16) * 4 + (a / 4) % 4);
        assert(b / 4 == (b / 16) * 4 + (b / 4) % 4);
        assert(a == (a / 4) * 4 + a % 4);
        assert(b == (b / 4) * 4 + b % 4);
        assert(false);
    }
}

} // verus!
