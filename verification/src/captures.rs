//! That no move captures a king: what a piece captures, it attacks.

use vstd::prelude::*;
use crate::bits::{bit, group_bit_facts};
use crate::board::BitBoard;
use crate::enums::{Dir, Piece};
use crate::masks::Mask;
use crate::moves::Move;
use crate::pieces::kings::king_moves;
use crate::pieces::knights::knight_moves;
use crate::pieces::pawns::{capture_dests, forward, pawn_attacks, push_dests};
use crate::pieces::{
    diagonal_dests, lemma_slide_word, ray, slide_moves, slide_reach, straight_dests,
};
use crate::squares::Square;

verus! {

/// A square that a sliding piece may go to is a square that it attacks.
pub proof fn lemma_slide_threat(pieces: Mask, from: Square, dir: Dir, a: Mask, p: Mask, to: int)
    requires
        from.on_board(),
        pieces.has(from@),
        bit(slide_moves(from, dir, a, p), to),
    ensures
        crate::pieces::directional_threats_spec(pieces, dir, Mask(a.0 | p.0)).has(to),
{
    broadcast use group_bit_facts;

    let blockers = Mask(a.0 | p.0);
    lemma_slide_word(dir.ascends(), ray(from, dir), a, p, to);
    lemma_slide_word(dir.ascends(), ray(from, dir), Mask(0), blockers, to);
    assert(slide_reach(dir.ascends(), ray(from, dir), Mask(0), blockers, to));
    let f = crate::pieces::slide_threat_step(dir, blockers);
    let g = |s: int|
        crate::pieces::slide_word(dir.ascends(), ray(Square::of(s), dir).0, 0, blockers.0);
    crate::squares::lemma_square_of_view(from);
    crate::masks::lemma_fold_or_has(pieces, 64, f, g, to);
    assert(0 <= from@ < 64 && pieces.has(from@) && bit(g(from@), to));
}

/// A square that a rook may go to is a square that it attacks.
pub proof fn lemma_straight_threat(pieces: Mask, from: Square, a: Mask, p: Mask, to: int)
    requires
        from.on_board(),
        pieces.has(from@),
        straight_dests(from, a, p).has(to),
    ensures
        crate::pieces::straight_threats(pieces, Mask(a.0 | p.0)).has(to),
{
    broadcast use group_bit_facts;

    if bit(slide_moves(from, Dir::North, a, p), to) {
        lemma_slide_threat(pieces, from, Dir::North, a, p, to);
    } else if bit(slide_moves(from, Dir::East, a, p), to) {
        lemma_slide_threat(pieces, from, Dir::East, a, p, to);
    } else if bit(slide_moves(from, Dir::South, a, p), to) {
        lemma_slide_threat(pieces, from, Dir::South, a, p, to);
    } else {
        lemma_slide_threat(pieces, from, Dir::West, a, p, to);
    }
}

/// A square that a bishop may go to is a square that it attacks.
pub proof fn lemma_diagonal_threat(pieces: Mask, from: Square, a: Mask, p: Mask, to: int)
    requires
        from.on_board(),
        pieces.has(from@),
        diagonal_dests(from, a, p).has(to),
    ensures
        crate::pieces::diagonal_threats(pieces, Mask(a.0 | p.0)).has(to),
{
    broadcast use group_bit_facts;

    if bit(slide_moves(from, Dir::NorthWest, a, p), to) {
        lemma_slide_threat(pieces, from, Dir::NorthWest, a, p, to);
    } else if bit(slide_moves(from, Dir::NorthEast, a, p), to) {
        lemma_slide_threat(pieces, from, Dir::NorthEast, a, p, to);
    } else if bit(slide_moves(from, Dir::SouthEast, a, p), to) {
        lemma_slide_threat(pieces, from, Dir::SouthEast, a, p, to);
    } else {
        lemma_slide_threat(pieces, from, Dir::SouthWest, a, p, to);
    }
}

impl BitBoard {
    /// The squares that the side to move attacks.
    pub open spec fn mover_threats(self) -> Mask {
        self.mover().threats_spec(self.metadata.to_move, self.waiter().as_mask_spec(), None)
    }

    /// A piece that a move captures where the moving piece goes stands on
    /// a square that the side to move attacks.
    #[verifier::rlimit(50)]
    pub proof fn lemma_capture_is_threat(self, m: Move)
        requires
            self.valid(),
            self.generated(m),
            m.capture matches Some((sq, _)) && sq == m.from_to.to,
        ensures
            self.mover_threats().has(m.from_to.to@),
    {
        broadcast use group_bit_facts;

        let color = self.metadata.to_move;
        let active = self.mover();
        let a = active.as_mask_spec();
        let p = self.waiter().as_mask_spec();
        let from = m.from_to.from;
        let to = m.from_to.to@;
        let blocking = Mask(a.0 | p.0);
        assert(active.blocking_spec(p, None) == blocking);
        crate::squares::lemma_square_of_view(from);
        if self.plain_move(Piece::Queen, m) {
            if diagonal_dests(from, a, p).has(to) {
                lemma_diagonal_threat(active.queens.0, from, a, p, to);
            } else {
                lemma_straight_threat(active.queens.0, from, a, p, to);
            }
        } else if self.plain_move(Piece::Rook, m) {
            lemma_straight_threat(active.rooks.0, from, a, p, to);
        } else if self.plain_move(Piece::Bishop, m) {
            lemma_diagonal_threat(active.bishops.0, from, a, p, to);
        } else if self.plain_move(Piece::Knight, m) {
            let f = crate::pieces::knights::knight_threat_step();
            let g = |s: int| knight_moves(Square::of(s)).0;
            crate::masks::lemma_fold_or_has(active.knights.0, 64, f, g, to);
            assert(0 <= from@ < 64 && active.knights.0.has(from@) && bit(g(from@), to));
        } else if self.pawn_move(m) {
            self.waiter().lemma_capture_at(m.from_to.to);
            self.lemma_lands_well(m);
            let f = crate::pieces::pawns::pawn_threat_step(forward(color));
            let g = |s: int| pawn_attacks(Square::of(s), forward(color)).0;
            crate::masks::lemma_fold_or_has(active.pawns.0, 64, f, g, to);
            if capture_dests(color, from, p).has(to) {
                assert(0 <= from@ < 64 && active.pawns.0.has(from@) && bit(g(from@), to));
            } else if push_dests(color, from, a, p).has(to) && m.capture.is_none() {
            } else {
                assert(0 <= from@ < 64 && active.pawns.0.has(from@) && bit(g(from@), to));
            }
        } else if self.king_step(m) {
            let f = crate::pieces::kings::king_threat_step();
            let g = |s: int| king_moves(Square::of(s)).0;
            crate::masks::lemma_fold_or_has(active.kings.0, 64, f, g, to);
            assert(0 <= from@ < 64 && active.kings.0.has(from@) && bit(g(from@), to));
        }
    }

    /// No move that the generator makes in a position as it arises in
    /// play captures a king.
    #[verifier::rlimit(50)]
    pub proof fn lemma_no_king_capture(self, m: Move)
        requires
            self.valid(),
            self.generated(m),
        ensures
            m.capture matches Some((_, k)) ==> k != Piece::King,
    {
        broadcast use group_bit_facts;

        match m.capture {
            Some((sq, k)) => {
                if k == Piece::King {
                    self.lemma_lands_well(m);
                    let to = m.from_to.to;
                    self.waiter().lemma_capture_at(to);
                    if sq == to {
                        self.lemma_capture_is_threat(m);
                        let kings = self.waiter().kings.0;
                        assert(kings.has(to@)) by {
                            if self.pawn_move(m) || self.king_step(m) || self.plain_move(
                                Piece::Queen,
                                m,
                            ) || self.plain_move(Piece::Rook, m) || self.plain_move(
                                Piece::Bishop,
                                m,
                            ) || self.plain_move(Piece::Knight, m) {
                            }
                        }
                        let both = kings.0 & self.mover_threats().0;
                        assert(bit(both, to@));
                        crate::bits::lemma_bit_nonzero(both, to@);
                        assert(self.is_in_check_spec(self.metadata.to_move.other_spec()));
                    }
                }
            },
            None => {},
        }
    }
}

} // verus!
