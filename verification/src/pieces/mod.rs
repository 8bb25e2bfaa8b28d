//! The six kinds of pieces, each as the set of squares that one side's
//! pieces of the kind stand on, with where they go and what they attack.

use vstd::prelude::*;
use crate::bits::{bit, group_bit_facts, lemma_lowest, lowest, single};
use crate::enums::{Color, ColorPiece, Dir, Piece};
use crate::half::HalfBitBoard;
use crate::masks::{lemma_walk_end, lemma_walk_step, reverse_word, walking, Mask};
use crate::moves::{Move, ProtoMove};
use crate::pieces::kings::Kings;
use crate::boardmap::BoardMap;
use crate::squares::Square;

pub mod bishops;
pub mod kings;
pub mod knights;
pub mod pawns;
pub mod queens;
pub mod rooks;

verus! {

/// The word of the one square, or of none.
pub open spec fn opt_word(sq: Option<Square>) -> u64 {
    match sq {
        Some(s) => single(s@),
        None => 0,
    }
}

/// The set of the one square, or of none.
pub fn opt_mask(sq: Option<Square>) -> (r: Mask)
    ensures
        r.0 == opt_word(sq),
{
    match sq {
        Some(s) => s.as_mask(),
        None => Mask::nil(),
    }
}

/// The square `k` steps away, if every step stays on the board.
pub open spec fn walk(s: Square, dir: Dir, k: nat) -> Option<Square>
    decreases k,
{
    if k == 0 {
        Some(s)
    } else {
        match walk(s, dir, (k - 1) as nat) {
            None => None,
            Some(t) => t.go_spec(dir),
        }
    }
}

/// The squares up to `n` steps away in one direction.
pub open spec fn ray_upto(s: Square, dir: Dir, n: nat) -> u64
    decreases n,
{
    if n == 0 {
        0
    } else {
        ray_upto(s, dir, (n - 1) as nat) | opt_word(walk(s, dir, n))
    }
}

/// The ray from a square in one direction on an empty board, without the
/// square itself.
pub open spec fn ray(s: Square, dir: Dir) -> Mask {
    Mask(ray_upto(s, dir, 7))
}

/// Once a walk has left the board it stays off it.
pub proof fn lemma_ray_ends(s: Square, dir: Dir, k: nat, n: nat)
    requires
        walk(s, dir, k).is_none(),
        k <= n + 1,
    ensures
        walk(s, dir, n + 1).is_none(),
        k >= 1 ==> ray_upto(s, dir, n) == ray_upto(s, dir, (k - 1) as nat),
    decreases n + 1 - k,
{
    if k < n + 1 {
        lemma_ray_ends(s, dir, k, (n - 1) as nat);
        assert(walk(s, dir, n).is_none());
        let x = ray_upto(s, dir, (n - 1) as nat);
        assert(ray_upto(s, dir, n) == x | 0u64);
        assert(x | 0u64 == x) by (bit_vector);
    }
}

/// The squares of `ray` that a piece sliding along it reaches: not a
/// square of its own side, and no square behind a piece of either side.
/// `nearer(u, t)` says that `u` comes before `t` on the ray.
pub open spec fn slide_reach(positive: bool, ray: Mask, same: Mask, other: Mask, t: int) -> bool {
    &&& ray.has(t)
    &&& !same.has(t)
    &&& forall|u: int|
        0 <= u < 64 && (if positive {
            u < t
        } else {
            u > t
        }) ==> !(#[trigger] ray.has(u) && (same.has(u) || other.has(u)))
}

/// The reachable squares of an ascending ray, computed from the lowest
/// blocker of each side.
pub open spec fn slide_up(ray: u64, same: u64, other: u64) -> u64 {
    let s = ray & same;
    let o = ray & other;
    let upto_other = if o == 0 {
        0xffff_ffff_ffff_ffffu64
    } else {
        ((o - 1) as u64) ^ o
    };
    let before_same = if s == 0 {
        0xffff_ffff_ffff_ffffu64
    } else {
        ((s - 1) as u64) & !s
    };
    (ray & upto_other) & (ray & before_same)
}

pub open spec fn slide_word(positive: bool, ray: u64, same: u64, other: u64) -> u64 {
    if positive {
        slide_up(ray, same, other)
    } else {
        reverse_word(slide_up(reverse_word(ray), reverse_word(same), reverse_word(other)))
    }
}

proof fn lemma_slide_up_bits(ray: u64, same: u64, other: u64, t: u64)
    by (bit_vector)
    requires
        t < 64,
    ensures
        (slide_up(ray, same, other) >> t) & 1 == 1 <==> ((ray >> t) & 1 == 1 && (same >> t) & 1
            != 1 && (ray & (same | other)) & (((1u64 << t) - 1) as u64) == 0),
{
}

proof fn lemma_below_bits(t: u64, u: u64)
    by (bit_vector)
    requires
        t < 64,
        u < 64,
    ensures
        ((((1u64 << t) - 1) as u64) >> u) & 1 == 1 <==> u < t,
{
}

/// What an ascending slide reaches, square by square.
#[verifier::rlimit(50)]
pub proof fn lemma_slide_up(ray: Mask, same: Mask, other: Mask, t: int)
    requires
        0 <= t < 64,
    ensures
        bit(slide_up(ray.0, same.0, other.0), t) <==> slide_reach(true, ray, same, other, t),
{
    broadcast use group_bit_facts;

    lemma_slide_up_bits(ray.0, same.0, other.0, t as u64);
    let below = ((1u64 << (t as u64)) - 1) as u64;
    let blockers = ray.0 & (same.0 | other.0);
    let low = blockers & below;
    assert forall|u: int| 0 <= u < 64 implies (bit(below, u) <==> u < t) by {
        lemma_below_bits(t as u64, u as u64);
    }
    if low != 0 {
        lemma_lowest(low);
        let z = lowest(low);
        assert(bit(low, z));
        assert(bit(blockers, z) && z < t);
        assert(ray.has(z) && (same.has(z) || other.has(z)));
    } else {
        assert forall|u: int| 0 <= u < 64 && u < t implies !(#[trigger] ray.has(u) && (same.has(u)
            || other.has(u))) by {
            if ray.has(u) && (same.has(u) || other.has(u)) {
                assert(bit(low, u));
                crate::bits::lemma_bit_nonzero(low, u);
            }
        }
    }
}

/// What a slide reaches, square by square.
#[verifier::rlimit(50)]
pub proof fn lemma_slide_word(positive: bool, ray: Mask, same: Mask, other: Mask, t: int)
    requires
        0 <= t < 64,
    ensures
        bit(slide_word(positive, ray.0, same.0, other.0), t) <==> slide_reach(
            positive,
            ray,
            same,
            other,
            t,
        ),
{
    if positive {
        lemma_slide_up(ray, same, other, t);
    } else {
        let r = ray.rotate_spec();
        let s = same.rotate_spec();
        let o = other.rotate_spec();
        let up = Mask(slide_up(r.0, s.0, o.0));
        lemma_slide_up(r, s, o, 63 - t);
        crate::masks::lemma_rotate_has(up, t);
        assert(bit(slide_word(positive, ray.0, same.0, other.0), t) <==> slide_reach(
            true,
            r,
            s,
            o,
            63 - t,
        ));
        crate::masks::lemma_rotate_has(ray, 63 - t);
        crate::masks::lemma_rotate_has(same, 63 - t);
        crate::masks::lemma_rotate_has(other, 63 - t);
        assert(r.has(63 - t) <==> ray.has(t));
        assert(s.has(63 - t) <==> same.has(t));
        if slide_reach(true, r, s, o, 63 - t) {
            assert forall|u: int| 0 <= u < 64 && u > t implies !(#[trigger] ray.has(u) && (
            same.has(u) || other.has(u))) by {
                crate::masks::lemma_rotate_has(ray, 63 - u);
                crate::masks::lemma_rotate_has(same, 63 - u);
                crate::masks::lemma_rotate_has(other, 63 - u);
                assert(!(r.has(63 - u) && (s.has(63 - u) || o.has(63 - u))));
            }
            assert(slide_reach(false, ray, same, other, t));
        }
        if slide_reach(false, ray, same, other, t) {
            assert forall|u: int| 0 <= u < 64 && u < 63 - t implies !(#[trigger] r.has(u) && (s.has(
                u,
            ) || o.has(u))) by {
                crate::masks::lemma_rotate_has(ray, u);
                crate::masks::lemma_rotate_has(same, u);
                crate::masks::lemma_rotate_has(other, u);
                assert(!(ray.has(63 - u) && (same.has(63 - u) || other.has(63 - u))));
            }
            assert(slide_reach(true, r, s, o, 63 - t));
        }
    }
}

/// The squares of a ray that a sliding piece reaches, given the pieces of
/// its own side and those of the other. `positive` says that the ray runs
/// towards higher squares.
pub fn slide_move_stop(positive: bool, move_mask: Mask, same_color: Mask, opposite_color: Mask) -> (r:
    Mask)
    ensures
        r.0 == slide_word(positive, move_mask.0, same_color.0, opposite_color.0),
        forall|t: int|
            0 <= t < 64 ==> (#[trigger] r.has(t) <==> slide_reach(
                positive,
                move_mask,
                same_color,
                opposite_color,
                t,
            )),
{
    let (ray, same, other) = if positive {
        (move_mask, same_color, opposite_color)
    } else {
        (move_mask.rotate(), same_color.rotate(), opposite_color.rotate())
    };
    let s = ray.0 & same.0;
    let o = ray.0 & other.0;
    let allowed_by_same = ray.0 & (s.wrapping_sub(1) & !s);
    let allowed_by_other = ray.0 & (o.wrapping_sub(1) ^ o);
    let allowed = Mask::new(allowed_by_other & allowed_by_same);
    let r = if positive {
        allowed
    } else {
        allowed.rotate()
    };
    proof {
        assert(0xffff_ffff_ffff_ffffu64 & !0u64 == 0xffff_ffff_ffff_ffffu64
            && 0xffff_ffff_ffff_ffffu64 ^ 0u64 == 0xffff_ffff_ffff_ffffu64) by (bit_vector);
        assert(s == 0 ==> s.wrapping_sub(1) == 0xffff_ffff_ffff_ffffu64);
        assert(s != 0 ==> s.wrapping_sub(1) == (s - 1) as u64);
        assert(o == 0 ==> o.wrapping_sub(1) == 0xffff_ffff_ffff_ffffu64);
        assert(o != 0 ==> o.wrapping_sub(1) == (o - 1) as u64);
        assert(allowed.0 == slide_up(ray.0, same.0, other.0));
        assert forall|t: int| 0 <= t < 64 implies (#[trigger] r.has(t) <==> slide_reach(
            positive,
            move_mask,
            same_color,
            opposite_color,
            t,
        )) by {
            lemma_slide_word(positive, move_mask, same_color, opposite_color, t);
        }
    }
    r
}

/// Appends the step of a piece to a square, with the capture of what
/// stands there.
pub open spec fn unfiltered_step(cp: ColorPiece, from: Square, passive: HalfBitBoard) -> spec_fn(
    Seq<Move>,
    int,
) -> Seq<Move> {
    |acc: Seq<Move>, to: int|
        acc.push(Move::plain(cp, from, Square::of(to), passive.capture_at(Square::of(to))))
}

/// Appends the step of a piece to a square, with the capture of what
/// stands there, unless it leaves the king of the moving side attacked.
pub open spec fn plain_step(
    cp: ColorPiece,
    from: Square,
    active_mask: Mask,
    kings: Kings,
    passive: HalfBitBoard,
) -> spec_fn(Seq<Move>, int) -> Seq<Move> {
    |acc: Seq<Move>, to: int|
        {
            let capture = passive.capture_at(Square::of(to));
            let step = ProtoMove { from, to: Square::of(to) };
            if step.makes_king_checked_spec(
                active_mask,
                kings,
                capture,
                passive,
                cp.color_spec().other_spec(),
            ) {
                acc
            } else {
                acc.push(Move::plain(cp, from, Square::of(to), capture))
            }
        }
}

/// Appends the steps of one piece to each square of `possible`.
pub fn push_unfiltered_moves(
    color_and_piece: ColorPiece,
    from: Square,
    possible: Mask,
    passive: &HalfBitBoard,
    res: &mut Vec<Move>,
)
    ensures
        final(res)@ == possible.fold(
            64,
            old(res)@,
            unfiltered_step(color_and_piece, from, *passive),
        ),
{
    let mut iter = possible.iter();
    let ghost mut k: int = 0;
    let ghost f = unfiltered_step(color_and_piece, from, *passive);
    let ghost start = res@;
    loop
        invariant_except_break
            walking(possible, iter.rest, k),
            f == unfiltered_step(color_and_piece, from, *passive),
            res@ == possible.fold(k, start, f),
        ensures
            res@ == possible.fold(64, start, f),
        decreases iter.rest.0,
    {
        let ghost before = iter.rest;
        match iter.next() {
            None => {
                proof {
                    lemma_walk_end(possible, before, k, start, f);
                }
                break ;
            },
            Some(to) => {
                proof {
                    lemma_walk_step(possible, before, k, start, f);
                    k = to@ + 1;
                    use_type_invariant(to);
                }
                let capture = passive.capture(to);
                res.push(
                    Move {
                        color_and_piece,
                        from_to: ProtoMove { from, to },
                        castling: None,
                        capture,
                        promotion: None,
                        align: [],
                    },
                );
            },
        }
    }
}

/// Appends the steps of one piece to each square of `possible` that do
/// not leave the king of the moving side attacked.
pub fn push_plain_moves(
    color_and_piece: ColorPiece,
    from: Square,
    possible: Mask,
    active_mask: Mask,
    kings: Kings,
    passive: &HalfBitBoard,
    res: &mut Vec<Move>,
)
    ensures
        final(res)@ == possible.fold(
            64,
            old(res)@,
            plain_step(color_and_piece, from, active_mask, kings, *passive),
        ),
{
    let mut iter = possible.iter();
    let ghost mut k: int = 0;
    let ghost f = plain_step(color_and_piece, from, active_mask, kings, *passive);
    let ghost start = res@;
    let passive_color = color_and_piece.color().other();
    loop
        invariant_except_break
            walking(possible, iter.rest, k),
            f == plain_step(color_and_piece, from, active_mask, kings, *passive),
            passive_color == color_and_piece.color_spec().other_spec(),
            res@ == possible.fold(k, start, f),
        ensures
            res@ == possible.fold(64, start, f),
        decreases iter.rest.0,
    {
        let ghost before = iter.rest;
        match iter.next() {
            None => {
                proof {
                    lemma_walk_end(possible, before, k, start, f);
                }
                break ;
            },
            Some(to) => {
                proof {
                    lemma_walk_step(possible, before, k, start, f);
                    k = to@ + 1;
                    use_type_invariant(to);
                }
                let from_to = ProtoMove { from, to };
                let capture = passive.capture(to);
                if !from_to.makes_king_checked(active_mask, kings, capture, passive, passive_color) {
                    res.push(
                        Move { color_and_piece, from_to, castling: None, capture, promotion: None, align: [] },
                    );
                }
            },
        }
    }
}

/// Puts the piece `cp` on each square of `mask`.
pub fn render_kind(mask: Mask, board: &mut BoardMap<Option<ColorPiece>>, cp: ColorPiece)
    ensures
        forall|i: int|
            0 <= i < 64 ==> final(board)@[i] == (if mask.has(i) {
                Some(cp)
            } else {
                old(board)@[i]
            }),
{
    let mut it = mask.iter();
    let ghost mut k: int = 0;
    loop
        invariant_except_break
            walking(mask, it.rest, k),
            forall|i: int|
                0 <= i < 64 ==> board@[i] == (if mask.has(i) && i < k {
                    Some(cp)
                } else {
                    old(board)@[i]
                }),
        ensures
            forall|i: int|
                0 <= i < 64 ==> board@[i] == (if mask.has(i) {
                    Some(cp)
                } else {
                    old(board)@[i]
                }),
        decreases it.rest.0,
    {
        let ghost before = it.rest;
        match it.next() {
            None => {
                proof {
                    lemma_walk_end(mask, before, k, 0int, |a: int, s: int| a);
                }
                break ;
            },
            Some(sq) => {
                proof {
                    lemma_walk_step(mask, before, k, 0int, |a: int, s: int| a);
                    k = sq@ + 1;
                }
                board.set(sq, Some(cp));
            },
        }
    }
}

/// The squares that sliding pieces on `pieces` attack in one direction,
/// given every piece on the board.
pub open spec fn slide_threat_step(dir: Dir, blockers: Mask) -> spec_fn(u64, int) -> u64 {
    |acc: u64, s: int| acc | slide_word(dir.ascends(), ray(Square::of(s), dir).0, 0, blockers.0)
}

pub open spec fn directional_threats_spec(pieces: Mask, dir: Dir, blockers: Mask) -> Mask {
    Mask(pieces.fold(64, 0u64, slide_threat_step(dir, blockers)))
}

/// Whether a step in the direction raises the index of the square.
pub fn ascends(dir: Dir) -> (r: bool)
    ensures
        r == dir.ascends(),
{
    match dir {
        Dir::North | Dir::NorthEast | Dir::East | Dir::NorthWest => true,
        _ => false,
    }
}

/// The ray from a square in one direction on an empty board.
pub fn ray_from(sq: Square, dir: Dir) -> (r: Mask)
    ensures
        r == ray(sq, dir),
{
    let mut res = Mask::nil();
    let mut cur = sq.go(dir);
    let mut n: u8 = 1;
    assert(walk(sq, dir, 0) == Some(sq));
    while n <= 7 && cur.is_some()
        invariant
            1 <= n <= 8,
            cur == walk(sq, dir, n as nat) || (n == 8 && cur.is_none()),
            res.0 == ray_upto(sq, dir, (n - 1) as nat),
        decreases 8 - n,
    {
        let s = cur.unwrap();
        res = res.overlay(s.as_mask());
        if n < 7 {
            cur = s.go(dir);
        } else {
            cur = None;
        }
        n += 1;
    }
    proof {
        if n <= 7 {
            lemma_ray_ends(sq, dir, n as nat, 7);
        }
    }
    res
}

/// The squares that sliding pieces on `pieces` attack in one direction.
pub fn directional_threats(pieces: Mask, dir: Dir, blockers: Mask) -> (r: Mask)
    ensures
        r == directional_threats_spec(pieces, dir, blockers),
{
    let mut res = Mask::nil();
    let mut iter = pieces.iter();
    let positive = ascends(dir);
    let ghost mut k: int = 0;
    let ghost f = slide_threat_step(dir, blockers);
    loop
        invariant_except_break
            walking(pieces, iter.rest, k),
            f == slide_threat_step(dir, blockers),
            positive == dir.ascends(),
            res.0 == pieces.fold(k, 0u64, f),
        ensures
            res.0 == pieces.fold(64, 0u64, f),
        decreases iter.rest.0,
    {
        let ghost before = iter.rest;
        match iter.next() {
            None => {
                proof {
                    lemma_walk_end(pieces, before, k, 0u64, f);
                }
                break ;
            },
            Some(sq) => {
                proof {
                    lemma_walk_step(pieces, before, k, 0u64, f);
                    k = sq@ + 1;
                    use_type_invariant(sq);
                }
                res = res.overlay(slide_move_stop(positive, ray_from(sq, dir), Mask::nil(), blockers));
            },
        }
    }
    res
}

/// The squares that a sliding piece on `from` may go to in one
/// direction.
pub open spec fn slide_moves(from: Square, dir: Dir, active_mask: Mask, passive_mask: Mask) -> u64 {
    slide_word(dir.ascends(), ray(from, dir).0, active_mask.0, passive_mask.0)
}

/// The squares that a sliding piece on `from` may go to in one
/// direction.
pub fn slide_from(from: Square, dir: Dir, active_mask: Mask, passive_mask: Mask) -> (r: Mask)
    ensures
        r.0 == slide_moves(from, dir, active_mask, passive_mask),
{
    slide_move_stop(ascends(dir), ray_from(from, dir), active_mask, passive_mask)
}

/// The value of the pieces on a set of squares at `each` apiece.
pub fn count_value(mask: Mask, each: i64) -> (r: i64)
    requires
        0 <= each <= 1_000_000_000,
    ensures
        r == mask.count() * each,
        0 <= r <= 64 * each,
{
    let n = mask.occupied();
    assert(n * each <= 64 * each) by (nonlinear_arith)
        requires
            0 <= n <= 64,
            0 <= each,
    ;
    assert(0 <= n * each) by (nonlinear_arith)
        requires
            0 <= n,
            0 <= each,
    ;
    (n as i64) * each
}

/// The squares that a rook on `from` may go to.
pub open spec fn straight_dests(from: Square, active_mask: Mask, passive_mask: Mask) -> Mask {
    Mask(
        slide_moves(from, Dir::North, active_mask, passive_mask) | slide_moves(
            from,
            Dir::East,
            active_mask,
            passive_mask,
        ) | slide_moves(from, Dir::South, active_mask, passive_mask) | slide_moves(
            from,
            Dir::West,
            active_mask,
            passive_mask,
        ),
    )
}

/// The squares that a bishop on `from` may go to.
pub open spec fn diagonal_dests(from: Square, active_mask: Mask, passive_mask: Mask) -> Mask {
    Mask(
        slide_moves(from, Dir::NorthWest, active_mask, passive_mask) | slide_moves(
            from,
            Dir::NorthEast,
            active_mask,
            passive_mask,
        ) | slide_moves(from, Dir::SouthEast, active_mask, passive_mask) | slide_moves(
            from,
            Dir::SouthWest,
            active_mask,
            passive_mask,
        ),
    )
}

/// The squares that rooks on `pieces` attack.
pub open spec fn straight_threats(pieces: Mask, blockers: Mask) -> Mask {
    Mask(
        directional_threats_spec(pieces, Dir::North, blockers).0 | directional_threats_spec(
            pieces,
            Dir::East,
            blockers,
        ).0 | directional_threats_spec(pieces, Dir::South, blockers).0 | directional_threats_spec(
            pieces,
            Dir::West,
            blockers,
        ).0,
    )
}

/// The squares that bishops on `pieces` attack.
pub open spec fn diagonal_threats(pieces: Mask, blockers: Mask) -> Mask {
    Mask(
        directional_threats_spec(pieces, Dir::NorthWest, blockers).0 | directional_threats_spec(
            pieces,
            Dir::NorthEast,
            blockers,
        ).0 | directional_threats_spec(pieces, Dir::SouthEast, blockers).0
            | directional_threats_spec(pieces, Dir::SouthWest, blockers).0,
    )
}

pub fn straight_from(from: Square, active_mask: Mask, passive_mask: Mask) -> (r: Mask)
    ensures
        r == straight_dests(from, active_mask, passive_mask),
{
    slide_from(from, Dir::North, active_mask, passive_mask).overlay(
        slide_from(from, Dir::East, active_mask, passive_mask),
    ).overlay(slide_from(from, Dir::South, active_mask, passive_mask)).overlay(
        slide_from(from, Dir::West, active_mask, passive_mask),
    )
}

pub fn diagonal_from(from: Square, active_mask: Mask, passive_mask: Mask) -> (r: Mask)
    ensures
        r == diagonal_dests(from, active_mask, passive_mask),
{
    slide_from(from, Dir::NorthWest, active_mask, passive_mask).overlay(
        slide_from(from, Dir::NorthEast, active_mask, passive_mask),
    ).overlay(slide_from(from, Dir::SouthEast, active_mask, passive_mask)).overlay(
        slide_from(from, Dir::SouthWest, active_mask, passive_mask),
    )
}

pub fn straight_threats_of(pieces: Mask, blockers: Mask) -> (r: Mask)
    ensures
        r == straight_threats(pieces, blockers),
{
    directional_threats(pieces, Dir::North, blockers).overlay(
        directional_threats(pieces, Dir::East, blockers),
    ).overlay(directional_threats(pieces, Dir::South, blockers)).overlay(
        directional_threats(pieces, Dir::West, blockers),
    )
}

pub fn diagonal_threats_of(pieces: Mask, blockers: Mask) -> (r: Mask)
    ensures
        r == diagonal_threats(pieces, blockers),
{
    directional_threats(pieces, Dir::NorthWest, blockers).overlay(
        directional_threats(pieces, Dir::NorthEast, blockers),
    ).overlay(directional_threats(pieces, Dir::SouthEast, blockers)).overlay(
        directional_threats(pieces, Dir::SouthWest, blockers),
    )
}

/// The squares that a queen, a rook, a bishop or a knight on `from` may
/// go to, whatever becomes of its king.
pub open spec fn plain_dests(kind: Piece, from: Square, active_mask: Mask, passive_mask: Mask) -> Mask {
    match kind {
        Piece::Queen => Mask(
            diagonal_dests(from, active_mask, passive_mask).0 | straight_dests(
                from,
                active_mask,
                passive_mask,
            ).0,
        ),
        Piece::Rook => straight_dests(from, active_mask, passive_mask),
        Piece::Bishop => diagonal_dests(from, active_mask, passive_mask),
        Piece::Knight => Mask(knights::knight_moves(from).0 & !active_mask.0),
        _ => Mask(0),
    }
}

/// Appends the legal moves of one queen, rook, bishop or knight.
pub open spec fn plain_from_step(
    kind: Piece,
    color: Color,
    active_mask: Mask,
    passive_mask: Mask,
    passive: HalfBitBoard,
    kings: Kings,
) -> spec_fn(Seq<Move>, int) -> Seq<Move> {
    |acc: Seq<Move>, from: int|
        plain_dests(kind, Square::of(from), active_mask, passive_mask).fold(
            64,
            acc,
            plain_step(ColorPiece::of(color, kind), Square::of(from), active_mask, kings, passive),
        )
}

/// Appends the legal moves of the queens, rooks, bishops or knights on
/// `pieces`, in the order of their squares and of the squares they go to.
pub open spec fn plain_moves_onto(
    kind: Piece,
    pieces: Mask,
    color: Color,
    active_mask: Mask,
    passive_mask: Mask,
    passive: HalfBitBoard,
    kings: Kings,
    acc: Seq<Move>,
) -> Seq<Move> {
    pieces.fold(64, acc, plain_from_step(kind, color, active_mask, passive_mask, passive, kings))
}

pub fn plain_from(kind: Piece, from: Square, active_mask: Mask, passive_mask: Mask) -> (r: Mask)
    ensures
        r == plain_dests(kind, from, active_mask, passive_mask),
{
    match kind {
        Piece::Queen => diagonal_from(from, active_mask, passive_mask).overlay(
            straight_from(from, active_mask, passive_mask),
        ),
        Piece::Rook => straight_from(from, active_mask, passive_mask),
        Piece::Bishop => diagonal_from(from, active_mask, passive_mask),
        Piece::Knight => knights::Knights::moves_from(from).overlap(active_mask.inverse()),
        _ => Mask::nil(),
    }
}

/// Appends the legal moves of the queens, rooks, bishops or knights on
/// `pieces`.
pub fn enumerate_plain(
    kind: Piece,
    pieces: Mask,
    color: Color,
    active_mask: Mask,
    passive_mask: Mask,
    passive: &HalfBitBoard,
    kings: Kings,
    res: &mut Vec<Move>,
)
    ensures
        final(res)@ == plain_moves_onto(
            kind,
            pieces,
            color,
            active_mask,
            passive_mask,
            *passive,
            kings,
            old(res)@,
        ),
{
    let color_and_piece = ColorPiece::new(color, kind);
    let mut iter = pieces.iter();
    let ghost mut k: int = 0;
    let ghost f = plain_from_step(kind, color, active_mask, passive_mask, *passive, kings);
    let ghost start = res@;
    loop
        invariant_except_break
            walking(pieces, iter.rest, k),
            f == plain_from_step(kind, color, active_mask, passive_mask, *passive, kings),
            color_and_piece == ColorPiece::of(color, kind),
            res@ == pieces.fold(k, start, f),
        ensures
            res@ == pieces.fold(64, start, f),
        decreases iter.rest.0,
    {
        let ghost before = iter.rest;
        match iter.next() {
            None => {
                proof {
                    lemma_walk_end(pieces, before, k, start, f);
                }
                break ;
            },
            Some(from) => {
                proof {
                    lemma_walk_step(pieces, before, k, start, f);
                    k = from@ + 1;
                    use_type_invariant(from);
                }
                let possible = plain_from(kind, from, active_mask, passive_mask);
                push_plain_moves(color_and_piece, from, possible, active_mask, kings, passive, res);
            },
        }
    }
}

/// The set without the square of a captured piece of the kind.
pub open spec fn captured_of(mask: Mask, kind: Piece, cap: Option<(Square, Piece)>) -> Mask {
    match cap {
        Some((sq, p)) => if p == kind {
            Mask(mask.0 & !single(sq@))
        } else {
            mask
        },
        None => mask,
    }
}

pub fn captured_mask(mask: Mask, kind: Piece, cap: Option<(Square, Piece)>) -> (r: Mask)
    ensures
        r == captured_of(mask, kind, cap),
{
    match cap {
        Some((sq, p)) => if p == kind {
            mask.unset(sq)
        } else {
            mask
        },
        None => mask,
    }
}

} // verus!
