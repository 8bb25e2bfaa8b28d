//! Kings.

use vstd::prelude::*;
use crate::boardmap::BoardMap;
use crate::castling::{CastlingDetail, CastlingDetails, CastlingRights, CastlingSide};
use crate::enums::{Color, ColorPiece, Dir, Piece, Rank};
use crate::half::HalfBitBoard;
use crate::masks::{lemma_walk_end, lemma_walk_step, rank_word, walking, Mask};
use crate::moves::Move;
use crate::pieces::{opt_mask, opt_word, push_unfiltered_moves, render_kind, unfiltered_step};
use crate::squares::Square;

verus! {

/// The squares of one side's kings.
#[derive(Clone, Copy, PartialEq, Eq, Structural, Debug)]
pub struct Kings(pub Mask);

/// The squares next to a square.
pub open spec fn king_moves(s: Square) -> Mask {
    Mask(
        opt_word(s.go_spec(Dir::North)) | opt_word(s.go_spec(Dir::East)) | opt_word(
            s.go_spec(Dir::South),
        ) | opt_word(s.go_spec(Dir::West)) | opt_word(s.go_spec(Dir::NorthEast)) | opt_word(
            s.go_spec(Dir::SouthEast),
        ) | opt_word(s.go_spec(Dir::SouthWest)) | opt_word(s.go_spec(Dir::NorthWest)),
    )
}

/// Adds the squares next to one king to what is attacked.
pub open spec fn king_threat_step() -> spec_fn(u64, int) -> u64 {
    |acc: u64, s: int| acc | king_moves(Square::of(s)).0
}

/// What a castling move needs: the side has a king; the king's square
/// and the files of `king_mask` on the rank are free of attack; and they
/// and the files of `rook_mask` are free of pieces other than kings of
/// the castling side.
pub open spec fn castling_open(
    king: Mask,
    rank: Rank,
    detail: CastlingDetail,
    threats: Mask,
    unking: Mask,
) -> bool {
    let path = king.0 | rank_word(rank.ix(), detail.king_mask);
    &&& king.0 != 0
    &&& path & threats.0 == 0
    &&& path & unking.0 == 0
    &&& rank_word(rank.ix(), detail.rook_mask) & unking.0 == 0
}

/// The castling move of a side.
pub open spec fn castling_of(color: Color, detail: CastlingDetail, side: CastlingSide) -> Move {
    Move {
        color_and_piece: ColorPiece::of(color, Piece::King),
        from_to: detail.king_move.as_move_spec(color.starting_rank_spec()),
        castling: Some(side),
        capture: None,
        promotion: None, align: [],
    }
}

impl Kings {
    pub open spec fn threats_spec(self) -> Mask {
        Mask(self.0.fold(64, 0u64, king_threat_step()))
    }

    /// The squares that the kings may step to: next to the king, not on a
    /// piece of its own side, and not attacked once the king has left its
    /// square.
    pub open spec fn steps_spec(self, from: Square, active_mask: Mask, passive: HalfBitBoard, color: Color) -> Mask {
        let threats = passive.threats_spec(
            color.other_spec(),
            Mask(active_mask.0 ^ self.0.0),
            None,
        );
        Mask(king_moves(from).0 & !active_mask.0 & !threats.0)
    }

    /// Appends the steps of the kings, in the order of their squares and
    /// of the squares they go to.
    pub open spec fn step_moves_spec(
        self,
        color: Color,
        active_mask: Mask,
        passive: HalfBitBoard,
    ) -> spec_fn(Seq<Move>, int) -> Seq<Move> {
        |acc: Seq<Move>, from: int|
            self.steps_spec(Square::of(from), active_mask, passive, color).fold(
                64,
                acc,
                unfiltered_step(ColorPiece::of(color, Piece::King), Square::of(from), passive),
            )
    }

    /// Appends one castling move if the side has the right and the move
    /// is open.
    pub open spec fn castling_onto(
        self,
        color: Color,
        active_mask: Mask,
        passive_mask: Mask,
        passive: HalfBitBoard,
        right: bool,
        detail: CastlingDetail,
        side: CastlingSide,
        acc: Seq<Move>,
    ) -> Seq<Move> {
        let unking = Mask((passive_mask.0 | active_mask.0) & !self.0.0);
        let threats = passive.threats_spec(color.other_spec(), active_mask, None);
        if right && castling_open(self.0, color.starting_rank_spec(), detail, threats, unking) {
            acc.push(castling_of(color, detail, side))
        } else {
            acc
        }
    }

    /// Appends the legal moves of the kings: their steps, then castling
    /// queenside, then castling kingside.
    pub open spec fn moves_onto(
        self,
        color: Color,
        active_mask: Mask,
        passive_mask: Mask,
        passive: HalfBitBoard,
        castling: CastlingRights,
        details: CastlingDetails,
        acc: Seq<Move>,
    ) -> Seq<Move> {
        let steps = self.0.fold(64, acc, self.step_moves_spec(color, active_mask, passive));
        let ooo = self.castling_onto(
            color,
            active_mask,
            passive_mask,
            passive,
            castling.ooo,
            details.ooo,
            CastlingSide::OOO,
            steps,
        );
        self.castling_onto(
            color,
            active_mask,
            passive_mask,
            passive,
            castling.oo,
            details.oo,
            CastlingSide::OO,
            ooo,
        )
    }

    pub fn nil() -> (r: Kings)
        ensures
            r.0.0 == 0,
    {
        Kings(Mask::nil())
    }

    pub fn new(mask: Mask) -> (r: Kings)
        ensures
            r.0 == mask,
    {
        Kings(mask)
    }

    pub fn as_mask(&self) -> (r: Mask)
        ensures
            r == self.0,
    {
        self.0
    }

    pub fn mut_mask(&mut self) -> (r: &mut Mask)
        ensures
            *r == old(self).0,
            final(self).0 == *final(r),
    {
        &mut self.0
    }

    /// Puts a king of the color on each of the squares.
    pub fn render(&self, board: &mut BoardMap<Option<ColorPiece>>, color: Color)
        ensures
            forall|i: int|
                0 <= i < 64 ==> final(board)@[i] == (if self.0.has(i) {
                    Some(ColorPiece::of(color, Piece::King))
                } else {
                    old(board)@[i]
                }),
    {
        render_kind(self.0, board, ColorPiece::new(color, Piece::King));
    }

    /// The table of `moves_from` for every square.
    pub fn build_move_db() -> (r: BoardMap<Mask>)
        ensures
            forall|i: int| 0 <= i < 64 ==> r@[i] == king_moves(Square::of(i)),
    {
        let mut res = BoardMap::new_with(Mask::nil());
        let mut n: i8 = 0;
        while n < 64
            invariant
                0 <= n <= 64,
                res@.len() == 64,
                forall|i: int| 0 <= i < n ==> res@[i] == king_moves(Square::of(i)),
            decreases 64 - n,
        {
            match Square::new(n) {
                None => {},
                Some(sq) => {
                    res.set(sq, Kings::moves_from(sq));
                },
            }
            n += 1;
        }
        res
    }

    /// The squares next to a square.
    pub fn moves_from(sq: Square) -> (r: Mask)
        ensures
            r == king_moves(sq),
    {
        opt_mask(sq.go(Dir::North)).overlay(opt_mask(sq.go(Dir::East))).overlay(
            opt_mask(sq.go(Dir::South)),
        ).overlay(opt_mask(sq.go(Dir::West))).overlay(opt_mask(sq.go(Dir::NorthEast))).overlay(
            opt_mask(sq.go(Dir::SouthEast)),
        ).overlay(opt_mask(sq.go(Dir::SouthWest))).overlay(opt_mask(sq.go(Dir::NorthWest)))
    }

    /// The squares that the kings attack.
    pub fn threats(&self) -> (r: Mask)
        ensures
            r == self.threats_spec(),
    {
        let mut res = Mask::nil();
        let mut iter = self.0.iter();
        let ghost mut k: int = 0;
        loop
            invariant_except_break
                walking(self.0, iter.rest, k),
                res.0 == self.0.fold(k, 0u64, king_threat_step()),
            ensures
                res.0 == self.0.fold(64, 0u64, king_threat_step()),
            decreases iter.rest.0,
        {
            let ghost before = iter.rest;
            match iter.next() {
                None => {
                    proof {
                        lemma_walk_end(self.0, before, k, 0u64, king_threat_step());
                    }
                    break ;
                },
                Some(sq) => {
                    proof {
                        lemma_walk_step(self.0, before, k, 0u64, king_threat_step());
                        k = sq@ + 1;
                        use_type_invariant(sq);
                    }
                    res = res.overlay(Kings::moves_from(sq));
                },
            }
        }
        res
    }

    /// Appends the legal moves of the kings.
    pub fn enumerate_legal_moves(
        &self,
        color: Color,
        active_mask: Mask,
        passive_mask: Mask,
        passive: &HalfBitBoard,
        castling: CastlingRights,
        castling_details: CastlingDetails,
        res: &mut Vec<Move>,
    )
        ensures
            final(res)@ == self.moves_onto(
                color,
                active_mask,
                passive_mask,
                *passive,
                castling,
                castling_details,
                old(res)@,
            ),
    {
        let color_and_piece = ColorPiece::new(color, Piece::King);
        let threats = passive.threats(color.other(), active_mask.differences(self.as_mask()), None);
        let mut iter = self.0.iter();
        let ghost mut k: int = 0;
        let ghost f = self.step_moves_spec(color, active_mask, *passive);
        let ghost start = res@;
        loop
            invariant_except_break
                walking(self.0, iter.rest, k),
                f == self.step_moves_spec(color, active_mask, *passive),
                color_and_piece == ColorPiece::of(color, Piece::King),
                threats == passive.threats_spec(
                    color.other_spec(),
                    Mask(active_mask.0 ^ self.0.0),
                    None,
                ),
                res@ == self.0.fold(k, start, f),
            ensures
                res@ == self.0.fold(64, start, f),
            decreases iter.rest.0,
        {
            let ghost before = iter.rest;
            match iter.next() {
                None => {
                    proof {
                        lemma_walk_end(self.0, before, k, start, f);
                    }
                    break ;
                },
                Some(from) => {
                    let possible = Kings::moves_from(from).overlap(active_mask.inverse()).overlap(
                        threats.inverse(),
                    );
                    proof {
                        lemma_walk_step(self.0, before, k, start, f);
                        k = from@ + 1;
                        use_type_invariant(from);
                        assert(possible == self.steps_spec(from, active_mask, *passive, color));
                    }
                    push_unfiltered_moves(color_and_piece, from, possible, passive, res);
                },
            }
        }
        let unking = passive_mask.overlay(active_mask).overlap(self.as_mask().inverse());
        let threats = if castling.ooo || castling.oo {
            passive.threats(color.other(), active_mask, None)
        } else {
            Mask::nil()
        };
        if castling.ooo {
            Kings::castling_move(
                self.as_mask(),
                color,
                castling_details.ooo,
                CastlingSide::OOO,
                threats,
                unking,
                res,
            );
        }
        if castling.oo {
            Kings::castling_move(
                self.as_mask(),
                color,
                castling_details.oo,
                CastlingSide::OO,
                threats,
                unking,
                res,
            );
        }
    }

    /// Appends one castling move if it is open.
    pub fn castling_move(
        king: Mask,
        color: Color,
        detail: CastlingDetail,
        castling: CastlingSide,
        threats: Mask,
        unking: Mask,
        res: &mut Vec<Move>,
    )
        ensures
            final(res)@ == (if castling_open(
                king,
                color.starting_rank_spec(),
                detail,
                threats,
                unking,
            ) {
                old(res)@.push(castling_of(color, detail, castling))
            } else {
                old(res)@
            }),
    {
        let rank = color.starting_rank();
        let path = king.overlay(Mask::new_rank(rank, detail.king_mask));
        let rook = Mask::new_rank(rank, detail.rook_mask);
        if king.any() && !path.overlap(threats).any() && !path.overlap(unking).any()
            && !rook.overlap(unking).any() {
            res.push(
                Move {
                    color_and_piece: ColorPiece::new(color, Piece::King),
                    from_to: detail.king_move.as_move(rank),
                    castling: Some(castling),
                    capture: None,
                    promotion: None, align: [],
                },
            );
        }
    }
}

} // verus!
