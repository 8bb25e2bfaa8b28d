//! Knights.

use vstd::prelude::*;
use crate::boardmap::BoardMap;
use crate::enums::{Color, ColorPiece, Dir, Millipawns, Piece};
use crate::half::HalfBitBoard;
use crate::masks::{lemma_walk_end, lemma_walk_step, walking, Mask};
use crate::moves::Move;
use crate::pieces::kings::Kings;
use crate::pieces::{
    captured_mask, captured_of, count_value, enumerate_plain, opt_mask, opt_word,
    plain_moves_onto, render_kind,
};
use crate::squares::Square;

verus! {

/// The squares of one side's knights.
#[derive(Clone, Copy, PartialEq, Eq, Structural, Debug)]
pub struct Knights(pub Mask);

/// The squares a knight's jump away from a square: one step straight and
/// one step diagonally onwards.
pub open spec fn knight_moves(s: Square) -> Mask {
    Mask(
        opt_word(s.goes_spec(seq![Dir::North, Dir::NorthEast])) | opt_word(
            s.goes_spec(seq![Dir::North, Dir::NorthWest]),
        ) | opt_word(s.goes_spec(seq![Dir::East, Dir::SouthEast])) | opt_word(
            s.goes_spec(seq![Dir::East, Dir::NorthEast]),
        ) | opt_word(s.goes_spec(seq![Dir::South, Dir::SouthWest])) | opt_word(
            s.goes_spec(seq![Dir::South, Dir::SouthEast]),
        ) | opt_word(s.goes_spec(seq![Dir::West, Dir::NorthWest])) | opt_word(
            s.goes_spec(seq![Dir::West, Dir::SouthWest]),
        ),
    )
}

/// Adds the squares a jump away from one knight to what is attacked.
pub open spec fn knight_threat_step() -> spec_fn(u64, int) -> u64 {
    |acc: u64, s: int| acc | knight_moves(Square::of(s)).0
}

impl Knights {
    pub open spec fn captured_spec(self, cap: Option<(Square, Piece)>) -> Knights {
        Knights(captured_of(self.0, Piece::Knight, cap))
    }

    pub open spec fn threats_spec(self) -> Mask {
        Mask(self.0.fold(64, 0u64, knight_threat_step()))
    }

    pub fn nil() -> (r: Knights)
        ensures
            r.0.0 == 0,
    {
        Knights(Mask::nil())
    }

    pub fn new(mask: Mask) -> (r: Knights)
        ensures
            r.0 == mask,
    {
        Knights(mask)
    }

    /// The value of the knights, at 3_250 apiece.
    pub fn materiel(&self) -> (r: Millipawns)
        ensures
            r == self.0.count() * 3_250,
            0 <= r <= 64 * 3_250,
    {
        count_value(self.0, 3_250)
    }

    pub fn as_mask(&self) -> (r: Mask)
        ensures
            r == self.0,
    {
        self.0
    }

    pub fn mut_mask(&mut self) -> (r: &mut Mask)
        ensures
            *r == old(self).0,
            final(self).0 == *final(r),
    {
        &mut self.0
    }

    /// The knights that are left when the piece `cap` is captured.
    pub fn captured(&self, cap: Option<(Square, Piece)>) -> (r: Knights)
        ensures
            r == self.captured_spec(cap),
    {
        Knights(captured_mask(self.0, Piece::Knight, cap))
    }

    /// Puts a knight of the color on each of the squares.
    pub fn render(&self, board: &mut BoardMap<Option<ColorPiece>>, color: Color)
        ensures
            forall|i: int|
                0 <= i < 64 ==> final(board)@[i] == (if self.0.has(i) {
                    Some(ColorPiece::of(color, Piece::Knight))
                } else {
                    old(board)@[i]
                }),
    {
        render_kind(self.0, board, ColorPiece::new(color, Piece::Knight));
    }

    /// The table of `moves_from` for every square.
    pub fn build_move_db() -> (r: BoardMap<Mask>)
        ensures
            forall|i: int| 0 <= i < 64 ==> r@[i] == knight_moves(Square::of(i)),
    {
        let mut res = BoardMap::new_with(Mask::nil());
        let mut n: i8 = 0;
        while n < 64
            invariant
                0 <= n <= 64,
                res@.len() == 64,
                forall|i: int| 0 <= i < n ==> res@[i] == knight_moves(Square::of(i)),
            decreases 64 - n,
        {
            match Square::new(n) {
                None => {},
                Some(sq) => {
                    res.set(sq, Knights::moves_from(sq));
                },
            }
            n += 1;
        }
        res
    }

    /// The squares a knight's jump away from a square.
    pub fn moves_from(sq: Square) -> (r: Mask)
        ensures
            r == knight_moves(sq),
    {
        opt_mask(sq.goes([Dir::North, Dir::NorthEast])).overlay(
            opt_mask(sq.goes([Dir::North, Dir::NorthWest])),
        ).overlay(opt_mask(sq.goes([Dir::East, Dir::SouthEast]))).overlay(
            opt_mask(sq.goes([Dir::East, Dir::NorthEast])),
        ).overlay(opt_mask(sq.goes([Dir::South, Dir::SouthWest]))).overlay(
            opt_mask(sq.goes([Dir::South, Dir::SouthEast])),
        ).overlay(opt_mask(sq.goes([Dir::West, Dir::NorthWest]))).overlay(
            opt_mask(sq.goes([Dir::West, Dir::SouthWest])),
        )
    }

    /// The squares that the knights attack.
    pub fn threats(&self) -> (r: Mask)
        ensures
            r == self.threats_spec(),
    {
        let mut res = Mask::nil();
        let mut iter = self.0.iter();
        let ghost mut k: int = 0;
        loop
            invariant_except_break
                walking(self.0, iter.rest, k),
                res.0 == self.0.fold(k, 0u64, knight_threat_step()),
            ensures
                res.0 == self.0.fold(64, 0u64, knight_threat_step()),
            decreases iter.rest.0,
        {
            let ghost before = iter.rest;
            match iter.next() {
                None => {
                    proof {
                        lemma_walk_end(self.0, before, k, 0u64, knight_threat_step());
                    }
                    break ;
                },
                Some(sq) => {
                    proof {
                        lemma_walk_step(self.0, before, k, 0u64, knight_threat_step());
                        k = sq@ + 1;
                        use_type_invariant(sq);
                    }
                    res = res.overlay(Knights::moves_from(sq));
                },
            }
        }
        res
    }

    /// Appends the legal moves of the knights.
    pub fn enumerate_legal_moves(
        &self,
        color: Color,
        active_mask: Mask,
        passive: &HalfBitBoard,
        kings: Kings,
        res: &mut Vec<Move>,
    )
        ensures
            final(res)@ == plain_moves_onto(
                Piece::Knight,
                self.0,
                color,
                active_mask,
                Mask(0),
                *passive,
                kings,
                old(res)@,
            ),
    {
        enumerate_plain(
            Piece::Knight,
            self.0,
            color,
            active_mask,
            Mask::nil(),
            passive,
            kings,
            res,
        );
    }
}

} // verus!
