//! Bishops.

use vstd::prelude::*;
use crate::boardmap::BoardMap;
use crate::enums::{Color, ColorPiece, Millipawns, Piece};
use crate::half::HalfBitBoard;
use crate::masks::Mask;
use crate::moves::Move;
use crate::pieces::kings::Kings;
use crate::pieces::{
    captured_mask, captured_of, count_value, enumerate_plain, plain_moves_onto, render_kind,
    diagonal_threats, diagonal_threats_of,
};
use crate::squares::Square;

verus! {

/// The squares of one side's bishops.
#[derive(Clone, Copy, PartialEq, Eq, Structural, Debug)]
pub struct Bishops(pub Mask);

impl Bishops {
    pub open spec fn captured_spec(self, cap: Option<(Square, Piece)>) -> Bishops {
        Bishops(captured_of(self.0, Piece::Bishop, cap))
    }

    pub open spec fn threats_spec(self, blockers: Mask) -> Mask {
        diagonal_threats(self.0, blockers)
    }

    pub fn nil() -> (r: Bishops)
        ensures
            r.0.0 == 0,
    {
        Bishops(Mask::nil())
    }

    pub fn new(mask: Mask) -> (r: Bishops)
        ensures
            r.0 == mask,
    {
        Bishops(mask)
    }

    /// The value of the bishops, at 3_333 apiece.
    pub fn materiel(&self) -> (r: Millipawns)
        ensures
            r == self.0.count() * 3_333,
            0 <= r <= 64 * 3_333,
    {
        count_value(self.0, 3_333)
    }

    pub fn as_mask(&self) -> (r: Mask)
        ensures
            r == self.0,
    {
        self.0
    }

    pub fn mut_mask(&mut self) -> (r: &mut Mask)
        ensures
            *r == old(self).0,
            final(self).0 == *final(r),
    {
        &mut self.0
    }

    /// The bishops that are left when the piece `cap` is captured.
    pub fn captured(&self, cap: Option<(Square, Piece)>) -> (r: Bishops)
        ensures
            r == self.captured_spec(cap),
    {
        Bishops(captured_mask(self.0, Piece::Bishop, cap))
    }

    /// Puts a bishop of the color on each of the squares.
    pub fn render(&self, board: &mut BoardMap<Option<ColorPiece>>, color: Color)
        ensures
            forall|i: int|
                0 <= i < 64 ==> final(board)@[i] == (if self.0.has(i) {
                    Some(ColorPiece::of(color, Piece::Bishop))
                } else {
                    old(board)@[i]
                }),
    {
        render_kind(self.0, board, ColorPiece::new(color, Piece::Bishop));
    }

    /// The squares that the bishops attack, given every piece on the
    /// board.
    pub fn threats(&self, blockers: Mask) -> (r: Mask)
        ensures
            r == self.threats_spec(blockers),
    {
        diagonal_threats_of(self.0, blockers)
    }

    /// Appends the legal moves of the bishops.
    pub fn enumerate_legal_moves(
        &self,
        color: Color,
        active_mask: Mask,
        passive: &HalfBitBoard,
        passive_mask: Mask,
        kings: Kings,
        res: &mut Vec<Move>,
    )
        ensures
            final(res)@ == plain_moves_onto(
                Piece::Bishop,
                self.0,
                color,
                active_mask,
                passive_mask,
                *passive,
                kings,
                old(res)@,
            ),
    {
        enumerate_plain(
            Piece::Bishop,
            self.0,
            color,
            active_mask,
            passive_mask,
            passive,
            kings,
            res,
        );
    }
}

} // verus!
