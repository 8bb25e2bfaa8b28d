//! The starting arrays of Chess960 by their numbers.

use vstd::prelude::*;
use crate::chess960_laws::lemma_array_full;
use crate::enums::Piece;

verus! {

/// The index of the free square that has `n` free squares before it,
/// looking from `from` on; the length of the rank if there is none.
pub open spec fn nth_free(rank: Seq<Option<Piece>>, from: int, n: nat) -> int
    decreases rank.len() - from,
{
    if from < 0 || from >= rank.len() {
        rank.len() as int
    } else if rank[from].is_none() {
        if n == 0 {
            from
        } else {
            nth_free(rank, from + 1, (n - 1) as nat)
        }
    } else {
        nth_free(rank, from + 1, n)
    }
}

/// The rank with a piece on the free square that has `n` free squares
/// before it.
pub open spec fn put(rank: Seq<Option<Piece>>, n: nat, piece: Piece) -> Seq<Option<Piece>> {
    let i = nth_free(rank, 0, n);
    if i < rank.len() {
        rank.update(i, Some(piece))
    } else {
        rank
    }
}

/// Where the two knights go among the five squares that are free for
/// them: how many free squares come before the first, and how many of
/// those left come before the second.
pub open spec fn knight_slots(k: int) -> (nat, nat) {
    if k <= 3 {
        (0, k as nat)
    } else if k <= 6 {
        (1, (k - 3) as nat)
    } else if k <= 8 {
        (2, (k - 5) as nat)
    } else {
        (3, 3)
    }
}

/// The square of the bishop on the light squares: the first part of the
/// number picks one of the four.
pub open spec fn light_square(n: int) -> int {
    (n % 4) * 2 + 1
}

/// The square of the bishop on the dark squares: the second part of the
/// number picks one of the four.
pub open spec fn dark_square(n: int) -> int {
    ((n / 4) % 4) * 2
}

/// The rank with the two bishops of a number below 960.
pub open spec fn with_bishops(n: int) -> Seq<Option<Piece>> {
    Seq::new(8, |i: int| None::<Piece>).update(light_square(n), Some(Piece::Bishop)).update(
        dark_square(n),
        Some(Piece::Bishop),
    )
}

/// The rank with the bishops and the queen: the third part of the number
/// picks one of the six squares that are free for her.
pub open spec fn with_queen(n: int) -> Seq<Option<Piece>> {
    put(with_bishops(n), ((n / 16) % 6) as nat, Piece::Queen)
}

/// The rank with the bishops, the queen and the first knight.
pub open spec fn with_knight(n: int) -> Seq<Option<Piece>> {
    put(with_queen(n), knight_slots(n / 96).0, Piece::Knight)
}

/// The rank with the bishops, the queen and the knights: the last part
/// of the number picks two of the five squares that are free for them.
pub open spec fn with_knights(n: int) -> Seq<Option<Piece>> {
    put(with_knight(n), knight_slots(n / 96).1, Piece::Knight)
}

/// The rank with all but the king and the second rook.
pub open spec fn with_rook(n: int) -> Seq<Option<Piece>> {
    put(with_knights(n), 0, Piece::Rook)
}

/// The rank with all but the second rook.
pub open spec fn with_king(n: int) -> Seq<Option<Piece>> {
    put(with_rook(n), 0, Piece::King)
}

/// The starting array of a number, square by square: the bishops on a
/// light and on a dark square as the number says, the queen and the
/// knights on the free squares that it picks, and rook, king and rook on
/// the three that are left. Numbers repeat after 960.
pub open spec fn chess_960_rank(frcn: int) -> Seq<Option<Piece>> {
    put(with_king(frcn % 960), 0, Piece::Rook)
}

/// Puts a piece on the free square that has `n` free squares before it.
fn skip_over(n: usize, c: Piece, res: &mut [Option<Piece>; 8])
    ensures
        final(res)@ == put(old(res)@, n as nat, c),
{
    let mut i: usize = 0;
    let mut left = n;
    while i < 8
        invariant
            i <= 8,
            res@ == old(res)@,
            nth_free(res@, 0, n as nat) == nth_free(res@, i as int, left as nat),
        decreases 8 - i,
    {
        if res[i].is_none() {
            if left == 0 {
                res[i] = Some(c);
                return ;
            }
            left -= 1;
        }
        i += 1;
    }
}

/// The starting array of the Chess960 position of a number, from the
/// a-file; numbers count from 0 and repeat after 960.
pub fn chess_960(frcn: usize) -> (r: [Piece; 8])
    ensures
        forall|i: int| 0 <= i < 8 ==> chess_960_rank(frcn as int)[i] == Some(#[trigger] r@[i]),
{
    let mut res: [Option<Piece>; 8] = [None;8];
    proof {
        assert(res@ =~= Seq::new(8, |i: int| None::<Piece>));
    }
    let mut n = frcn % 960;
    let bl = n % 4 * 2 + 1;
    res[bl] = Some(Piece::Bishop);
    n = n / 4;
    let bd = n % 4 * 2;
    res[bd] = Some(Piece::Bishop);
    n = n / 4;
    let q = n % 6;
    skip_over(q, Piece::Queen, &mut res);
    n = n / 6;
    let (n1, n2): (usize, usize) = if n <= 3 {
        (0, n)
    } else if n <= 6 {
        (1, n - 3)
    } else if n <= 8 {
        (2, n - 5)
    } else {
        (3, 3)
    };
    skip_over(n1, Piece::Knight, &mut res);
    skip_over(n2, Piece::Knight, &mut res);
    skip_over(0, Piece::Rook, &mut res);
    skip_over(0, Piece::King, &mut res);
    skip_over(0, Piece::Rook, &mut res);
    assert(res@ == chess_960_rank(frcn as int));
    proof {
        lemma_array_full(frcn as int);
    }
    let mut out = [Piece::King;8];
    let mut i: usize = 0;
    while i < 8
        invariant
            i <= 8,
            res@ == chess_960_rank(frcn as int),
            forall|j: int| 0 <= j < 8 ==> (#[trigger] res@[j]).is_some(),
            forall|j: int|
                0 <= j < i ==> out@[j] == (match res@[j] {
                    Some(p) => p,
                    None => Piece::King,
                }),
        decreases 8 - i,
    {
        out[i] =
        match res[i] {
            Some(p) => p,
            None => Piece::King,
        };
        i += 1;
    }
    out
}

} // verus!
