//! Rooks.

use vstd::prelude::*;
use crate::boardmap::BoardMap;
use crate::enums::{Color, ColorPiece, Millipawns, Piece};
use crate::half::HalfBitBoard;
use crate::masks::Mask;
use crate::moves::Move;
use crate::pieces::kings::Kings;
use crate::pieces::{
    captured_mask, captured_of, count_value, enumerate_plain, plain_moves_onto, render_kind,
    straight_threats, straight_threats_of,
};
use crate::squares::Square;

verus! {

/// The squares of one side's rooks.
#[derive(Clone, Copy, PartialEq, Eq, Structural, Debug)]
pub struct Rooks(pub Mask);

impl Rooks {
    pub open spec fn captured_spec(self, cap: Option<(Square, Piece)>) -> Rooks {
        Rooks(captured_of(self.0, Piece::Rook, cap))
    }

    pub open spec fn threats_spec(self, blockers: Mask) -> Mask {
        straight_threats(self.0, blockers)
    }

    pub fn nil() -> (r: Rooks)
        ensures
            r.0.0 == 0,
    {
        Rooks(Mask::nil())
    }

    pub fn new(mask: Mask) -> (r: Rooks)
        ensures
            r.0 == mask,
    {
        Rooks(mask)
    }

    /// The value of the rooks, at 5_000 apiece.
    pub fn materiel(&self) -> (r: Millipawns)
        ensures
            r == self.0.count() * 5_000,
            0 <= r <= 64 * 5_000,
    {
        count_value(self.0, 5_000)
    }

    pub fn as_mask(&self) -> (r: Mask)
        ensures
            r == self.0,
    {
        self.0
    }

    pub fn mut_mask(&mut self) -> (r: &mut Mask)
        ensures
            *r == old(self).0,
            final(self).0 == *final(r),
    {
        &mut self.0
    }

    /// The rooks that are left when the piece `cap` is captured.
    pub fn captured(&self, cap: Option<(Square, Piece)>) -> (r: Rooks)
        ensures
            r == self.captured_spec(cap),
    {
        Rooks(captured_mask(self.0, Piece::Rook, cap))
    }

    /// Puts a rook of the color on each of the squares.
    pub fn render(&self, board: &mut BoardMap<Option<ColorPiece>>, color: Color)
        ensures
            forall|i: int|
                0 <= i < 64 ==> final(board)@[i] == (if self.0.has(i) {
                    Some(ColorPiece::of(color, Piece::Rook))
                } else {
                    old(board)@[i]
                }),
    {
        render_kind(self.0, board, ColorPiece::new(color, Piece::Rook));
    }

    /// The squares that the rooks attack, given every piece on the
    /// board.
    pub fn threats(&self, blockers: Mask) -> (r: Mask)
        ensures
            r == self.threats_spec(blockers),
    {
        straight_threats_of(self.0, blockers)
    }

    /// Appends the legal moves of the rooks.
    pub fn enumerate_legal_moves(
        &self,
        color: Color,
        active_mask: Mask,
        passive: &HalfBitBoard,
        passive_mask: Mask,
        kings: Kings,
        res: &mut Vec<Move>,
    )
        ensures
            final(res)@ == plain_moves_onto(
                Piece::Rook,
                self.0,
                color,
                active_mask,
                passive_mask,
                *passive,
                kings,
                old(res)@,
            ),
    {
        enumerate_plain(
            Piece::Rook,
            self.0,
            color,
            active_mask,
            passive_mask,
            passive,
            kings,
            res,
        );
    }
}

} // verus!
