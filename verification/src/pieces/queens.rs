//! Queens.

use vstd::prelude::*;
use crate::boardmap::BoardMap;
use crate::enums::{Color, ColorPiece, Dir, Millipawns, Piece};
use crate::half::HalfBitBoard;
use crate::masks::Mask;
use crate::moves::Move;
use crate::pieces::kings::Kings;
use crate::pieces::{
    captured_mask, captured_of, count_value, enumerate_plain, plain_moves_onto, render_kind,
    diagonal_threats, diagonal_threats_of, directional_threats, directional_threats_spec, ray,
    ray_from, straight_threats, straight_threats_of,
};
use crate::squares::Square;

verus! {

/// The squares of one side's queens.
#[derive(Clone, Copy, PartialEq, Eq, Structural, Debug)]
pub struct Queens(pub Mask);

impl Queens {
    pub open spec fn captured_spec(self, cap: Option<(Square, Piece)>) -> Queens {
        Queens(captured_of(self.0, Piece::Queen, cap))
    }

    pub open spec fn threats_spec(self, blockers: Mask) -> Mask {
        Mask(diagonal_threats(self.0, blockers).0 | straight_threats(self.0, blockers).0)
    }

    pub open spec fn directional_threats_spec(self, dir: Dir, blockers: Mask) -> Mask {
        directional_threats_spec(self.0, dir, blockers)
    }

    pub fn nil() -> (r: Queens)
        ensures
            r.0.0 == 0,
    {
        Queens(Mask::nil())
    }

    pub fn new(mask: Mask) -> (r: Queens)
        ensures
            r.0 == mask,
    {
        Queens(mask)
    }

    /// The value of the queens, at 9_000 apiece.
    pub fn materiel(&self) -> (r: Millipawns)
        ensures
            r == self.0.count() * 9_000,
            0 <= r <= 64 * 9_000,
    {
        count_value(self.0, 9_000)
    }

    pub fn as_mask(&self) -> (r: Mask)
        ensures
            r == self.0,
    {
        self.0
    }

    pub fn mut_mask(&mut self) -> (r: &mut Mask)
        ensures
            *r == old(self).0,
            final(self).0 == *final(r),
    {
        &mut self.0
    }

    /// The queens that are left when the piece `cap` is captured.
    pub fn captured(&self, cap: Option<(Square, Piece)>) -> (r: Queens)
        ensures
            r == self.captured_spec(cap),
    {
        Queens(captured_mask(self.0, Piece::Queen, cap))
    }

    /// Puts a queen of the color on each of the squares.
    pub fn render(&self, board: &mut BoardMap<Option<ColorPiece>>, color: Color)
        ensures
            forall|i: int|
                0 <= i < 64 ==> final(board)@[i] == (if self.0.has(i) {
                    Some(ColorPiece::of(color, Piece::Queen))
                } else {
                    old(board)@[i]
                }),
    {
        render_kind(self.0, board, ColorPiece::new(color, Piece::Queen));
    }

    /// The squares that the queens attack, given every piece on the
    /// board.
    pub fn threats(&self, blockers: Mask) -> (r: Mask)
        ensures
            r == self.threats_spec(blockers),
    {
        diagonal_threats_of(self.0, blockers).overlay(straight_threats_of(self.0, blockers))
    }

    /// The table of the rays in one direction for every square.
    pub fn build_move_db(dir: Dir) -> (r: BoardMap<Mask>)
        ensures
            forall|i: int| 0 <= i < 64 ==> r@[i] == ray(Square::of(i), dir),
    {
        let mut res = BoardMap::new_with(Mask::nil());
        let mut n: i8 = 0;
        while n < 64
            invariant
                0 <= n <= 64,
                res@.len() == 64,
                forall|i: int| 0 <= i < n ==> res@[i] == ray(Square::of(i), dir),
            decreases 64 - n,
        {
            match Square::new(n) {
                None => {},
                Some(sq) => {
                    res.set(sq, Queens::moves_from(sq, dir));
                },
            }
            n += 1;
        }
        res
    }

    /// The ray from a square in one direction on an empty board.
    pub fn moves_from(sq: Square, dir: Dir) -> (r: Mask)
        ensures
            r == ray(sq, dir),
    {
        ray_from(sq, dir)
    }

    /// The squares that the queens attack in one direction.
    pub fn directional_threats(&self, dir: Dir, blockers: Mask) -> (r: Mask)
        ensures
            r == self.directional_threats_spec(dir, blockers),
    {
        directional_threats(self.0, dir, blockers)
    }

    /// Appends the legal moves of the queens.
    pub fn enumerate_legal_moves(
        &self,
        color: Color,
        active_mask: Mask,
        passive: &HalfBitBoard,
        passive_mask: Mask,
        kings: Kings,
        res: &mut Vec<Move>,
    )
        ensures
            final(res)@ == plain_moves_onto(
                Piece::Queen,
                self.0,
                color,
                active_mask,
                passive_mask,
                *passive,
                kings,
                old(res)@,
            ),
    {
        enumerate_plain(
            Piece::Queen,
            self.0,
            color,
            active_mask,
            passive_mask,
            passive,
            kings,
            res,
        );
    }
}

} // verus!
