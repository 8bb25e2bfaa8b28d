//! Positions as they arise in play, and what their moves need of the
//! board.

use vstd::prelude::*;
use crate::bits::{bit, group_bit_facts};
use crate::board::BitBoard;
use crate::castling::{CastlingDetail, CastlingDetails, CastlingSide};
use crate::enums::{Color, Dir, Piece};
use crate::half::HalfBitBoard;
use crate::masks::{lemma_count_one, lemma_rank_word_has, rank_word, Mask};
use crate::moves::Move;
use crate::pieces::pawns::{forward, pawn_pushes, push_dests};
use crate::pieces::{lemma_slide_word, plain_dests, ray};
use crate::squares::{lemma_square_of, Square};

verus! {

impl CastlingDetail {
    /// The king and the rook each go from one file to another, the four
    /// files differ, and the files that the two go to are among those
    /// that must be free for them.
    pub open spec fn sound(self) -> bool {
        &&& self.king_move.from != self.king_move.to
        &&& self.rook_move.from != self.rook_move.to
        &&& self.king_move.from != self.rook_move.from
        &&& self.king_move.to != self.rook_move.to
        &&& self.king_move.from != self.rook_move.to
        &&& self.king_move.to != self.rook_move.from
        &&& bit(self.king_mask as u64, self.king_move.to.ix())
        &&& bit(self.rook_mask as u64, self.rook_move.to.ix())
    }

    /// The rook starts in a corner, and the king goes towards it.
    pub open spec fn inward(self) -> bool {
        let rf = self.rook_move.from.ix();
        let kf = self.king_move.from.ix();
        let kt = self.king_move.to.ix();
        &&& rf == 0 || rf == 7
        &&& rf < kf ==> kt < kf
        &&& rf > kf ==> kt > kf
    }
}

/// Castling as in standard chess is sound.
pub proof fn lemma_standard_castling_sound()
    ensures
        CastlingDetails::standard().ooo.sound(),
        CastlingDetails::standard().oo.sound(),
        CastlingDetails::standard().ooo.inward(),
        CastlingDetails::standard().oo.inward(),
{
    assert((0x0cu8 as u64 >> 2) & 1 == 1 && (0x0eu8 as u64 >> 3) & 1 == 1 && (0x60u8 as u64 >> 6) & 1
        == 1 && (0x60u8 as u64 >> 5) & 1 == 1) by (bit_vector);
}

impl HalfBitBoard {
    /// The side stands on a square where one of its kinds does.
    pub proof fn lemma_as_mask_has(self, i: int)
        ensures
            self.as_mask_spec().has(i) <==> (self.kings.0.has(i) || self.queens.0.has(i)
                || self.rooks.0.has(i) || self.bishops.0.has(i) || self.knights.0.has(i)
                || self.pawns.0.has(i)),
            forall|p: Piece| #[trigger] self.piece_mask_spec(p).has(i) ==> self.as_mask_spec().has(i),
            self.as_mask_spec().has(i) ==> exists|p: Piece| #[trigger] self.piece_mask_spec(p).has(i),
    {
        broadcast use group_bit_facts;

        if self.as_mask_spec().has(i) {
            if self.kings.0.has(i) {
                assert(self.piece_mask_spec(Piece::King).has(i));
            } else if self.queens.0.has(i) {
                assert(self.piece_mask_spec(Piece::Queen).has(i));
            } else if self.rooks.0.has(i) {
                assert(self.piece_mask_spec(Piece::Rook).has(i));
            } else if self.bishops.0.has(i) {
                assert(self.piece_mask_spec(Piece::Bishop).has(i));
            } else if self.knights.0.has(i) {
                assert(self.piece_mask_spec(Piece::Knight).has(i));
            } else {
                assert(self.piece_mask_spec(Piece::Pawn).has(i));
            }
        }
    }

    /// What stands on a square stands there, and where nothing is said to
    /// stand the side does not stand.
    pub proof fn lemma_capture_at(self, sq: Square)
        ensures
            self.capture_at(sq) matches Some((s, k)) ==> s == sq && self.piece_mask_spec(k).has(sq@),
            self.capture_at(sq).is_none() ==> !self.as_mask_spec().has(sq@),
            self.capture_at(sq).is_none() <==> self.piece_at_spec(sq).is_none(),
    {
        self.lemma_as_mask_has(sq@);
    }

    /// The squares of each kind after squares were toggled for one.
    pub proof fn lemma_toggled(self, piece: Piece, mask: Mask, q: Piece, i: int)
        ensures
            self.toggled(piece, mask).piece_mask_spec(q).has(i) <==> (if q == piece {
                self.piece_mask_spec(q).has(i) != mask.has(i)
            } else {
                self.piece_mask_spec(q).has(i)
            }),
    {
        broadcast use group_bit_facts;

    }
}

impl BitBoard {
    /// Each side has one king.
    pub open spec fn one_king_each(self) -> bool {
        self.white.kings.0.count() == 1 && self.black.kings.0.count() == 1
    }

    /// No square holds a piece of each side.
    pub open spec fn sides_apart(self) -> bool {
        forall|i: int|
            0 <= i < 64 ==> !(#[trigger] self.white.as_mask_spec().has(i)
                && self.black.as_mask_spec().has(i))
    }

    /// No square holds two pieces of one side.
    pub open spec fn kinds_apart(self) -> bool {
        self.white.disjoint() && self.black.disjoint()
    }

    /// Where a capture in passing is open, the pawn to capture is a pawn
    /// of the side that is not to move, and the square to go to is empty
    /// and on the third rank of that side.
    pub open spec fn en_passant_sound(self) -> bool {
        self.metadata.en_passant matches Some(ep) ==> {
            &&& ep.to.on_board()
            &&& ep.capture.on_board()
            &&& self.waiter().pawns.0.has(ep.capture@)
            &&& !self.mover().as_mask_spec().has(ep.to@)
            &&& !self.waiter().as_mask_spec().has(ep.to@)
            &&& ep.to@ / 8 == (match self.metadata.to_move {
                Color::Black => 2int,
                Color::White => 5int,
            })
        }
    }

    /// Where a side has a castling right, its king and the rook stand
    /// where the castling starts.
    pub open spec fn castling_sound(self, color: Color) -> bool {
        let rights = self.metadata.rights_of(color);
        let rank = color.starting_rank_spec();
        let details = self.metadata.castling_details;
        &&& rights.ooo ==> self.side(color).kings.0.has(
            Square::at_spec(details.ooo.king_move.from, rank)@,
        ) && self.side(color).rooks.0.has(Square::at_spec(details.ooo.rook_move.from, rank)@)
        &&& rights.oo ==> self.side(color).kings.0.has(
            Square::at_spec(details.oo.king_move.from, rank)@,
        ) && self.side(color).rooks.0.has(Square::at_spec(details.oo.rook_move.from, rank)@)
    }

    /// A position as it arises in play: one king a side, no square with
    /// two pieces, the capture in passing and the castling rights in
    /// keeping with the pieces, and the side that has moved not in check.
    pub open spec fn valid(self) -> bool {
        &&& self.one_king_each()
        &&& self.sides_apart()
        &&& self.kinds_apart()
        &&& self.en_passant_sound()
        &&& self.metadata.castling_details.ooo.sound()
        &&& self.metadata.castling_details.oo.sound()
        &&& self.metadata.castling_details.ooo.inward()
        &&& self.metadata.castling_details.oo.inward()
        &&& self.castling_sound(Color::White)
        &&& self.castling_sound(Color::Black)
        &&& !self.is_in_check_spec(self.metadata.to_move.other_spec())
    }

    /// What a move needs of the board to be made: a piece of the side to
    /// move of the kind that moves stands on the square it leaves; no
    /// piece of that side stands on the square it goes to; what it
    /// captures stands where it is captured, and nothing else of the
    /// other side stands where the piece goes; only a pawn is promoted,
    /// and not to a pawn or a king.
    pub open spec fn lands_well(self, m: Move) -> bool {
        let from = m.from_to.from;
        let to = m.from_to.to;
        &&& m.color_and_piece.color_spec() == self.metadata.to_move
        &&& from.on_board()
        &&& to.on_board()
        &&& from != to
        &&& self.mover().piece_mask_spec(m.color_and_piece.piece_spec()).has(from@)
        &&& !self.mover().as_mask_spec().has(to@)
        &&& match m.capture {
            Some((sq, k)) => sq.on_board() && self.waiter().piece_mask_spec(k).has(sq@) && (sq == to
                || !self.waiter().as_mask_spec().has(to@)),
            None => !self.waiter().as_mask_spec().has(to@),
        }
        &&& match m.promotion {
            Some(k) => m.color_and_piece.piece_spec() == Piece::Pawn && k != Piece::Pawn && k
                != Piece::King,
            None => true,
        }
        &&& m.castling.is_some() ==> m.color_and_piece.piece_spec() == Piece::King
            && m.capture.is_none() && m.promotion.is_none()
    }

    /// The squares that a queen, a rook, a bishop or a knight may go to
    /// hold no piece of its own side.
    pub proof fn lemma_plain_dests_free(kind: Piece, from: Square, a: Mask, p: Mask, to: int)
        requires
            plain_dests(kind, from, a, p).has(to),
        ensures
            !a.has(to),
    {
        broadcast use group_bit_facts;

        lemma_slide_word(Dir::North.ascends(), ray(from, Dir::North), a, p, to);
        lemma_slide_word(Dir::East.ascends(), ray(from, Dir::East), a, p, to);
        lemma_slide_word(Dir::South.ascends(), ray(from, Dir::South), a, p, to);
        lemma_slide_word(Dir::West.ascends(), ray(from, Dir::West), a, p, to);
        lemma_slide_word(Dir::NorthWest.ascends(), ray(from, Dir::NorthWest), a, p, to);
        lemma_slide_word(Dir::NorthEast.ascends(), ray(from, Dir::NorthEast), a, p, to);
        lemma_slide_word(Dir::SouthEast.ascends(), ray(from, Dir::SouthEast), a, p, to);
        lemma_slide_word(Dir::SouthWest.ascends(), ray(from, Dir::SouthWest), a, p, to);
    }

    /// Every move that the generator makes in a position as it arises in
    /// play can be made on the board.
    #[verifier::rlimit(50)]
    pub proof fn lemma_lands_well(self, m: Move)
        requires
            self.valid(),
            self.generated(m),
        ensures
            self.lands_well(m),
    {
        broadcast use group_bit_facts;

        let color = self.metadata.to_move;
        let a = self.mover().as_mask_spec();
        let p = self.waiter().as_mask_spec();
        let from = m.from_to.from;
        let to = m.from_to.to;
        self.waiter().lemma_capture_at(to);
        self.mover().lemma_as_mask_has(from@);
        self.mover().lemma_as_mask_has(to@);
        self.waiter().lemma_as_mask_has(to@);
        assert(self.white.as_mask_spec().has(to@) ==> !self.black.as_mask_spec().has(to@));
        if self.castling_move(m) {
            self.lemma_castling_lands(m);
        } else if self.pawn_move(m) {
            if push_dests(color, from, a, p).has(to@) && m.capture.is_none() {
                lemma_slide_word(
                    color == Color::White,
                    pawn_pushes(from, forward(color)),
                    Mask(a.0 | p.0),
                    Mask(0),
                    to@,
                );
            }
        } else if self.king_step(m) {
        } else {
            let kind = m.color_and_piece.piece_spec();
            Self::lemma_plain_dests_free(
                kind,
                from,
                a,
                if kind == Piece::Knight {
                    Mask(0)
                } else {
                    p
                },
                to@,
            );
        }
    }

    /// A castling that is open can be made on the board: the king stands
    /// where it starts, and the square it goes to is empty.
    #[verifier::rlimit(50)]
    pub proof fn lemma_castling_lands(self, m: Move)
        requires
            self.valid(),
            self.castling_move(m),
        ensures
            self.lands_well(m),
            self.rook_lands_well(m),
    {
        broadcast use group_bit_facts;

        let color = self.metadata.to_move;
        let rank = color.starting_rank_spec();
        let a = self.mover().as_mask_spec();
        let p = self.waiter().as_mask_spec();
        let kings = self.mover().kings.0;
        let side = m.castling.unwrap();
        let detail = match side {
            CastlingSide::OOO => self.metadata.castling_details.ooo,
            CastlingSide::OO => self.metadata.castling_details.oo,
        };
        let from = m.from_to.from;
        let to = m.from_to.to;
        let rf = Square::at_spec(detail.rook_move.from, rank);
        let rt = Square::at_spec(detail.rook_move.to, rank);
        lemma_square_of(8 * rank.ix() + detail.king_move.from.ix());
        lemma_square_of(8 * rank.ix() + detail.king_move.to.ix());
        lemma_square_of(8 * rank.ix() + detail.rook_move.from.ix());
        lemma_square_of(8 * rank.ix() + detail.rook_move.to.ix());
        assert(self.castling_sound(color));
        assert(detail.sound());
        assert(kings.has(from@));
        lemma_rank_word_has(rank.ix(), detail.king_mask, to@);
        lemma_rank_word_has(rank.ix(), detail.rook_mask, rt@);
        if kings.has(to@) {
            lemma_count_one(kings, from@, to@);
        }
        if kings.has(rt@) {
            lemma_count_one(kings, from@, rt@);
        }
        self.mover().lemma_as_mask_has(to@);
        self.waiter().lemma_as_mask_has(to@);
        self.mover().lemma_as_mask_has(rt@);
        self.waiter().lemma_as_mask_has(rt@);
        let path = kings.0 | rank_word(rank.ix(), detail.king_mask);
        let unking = (p.0 | a.0) & !kings.0;
        assert(bit(path, to@));
        assert(!bit(path & unking, to@));
        let rooks = rank_word(rank.ix(), detail.rook_mask);
        assert(bit(rooks, rt@));
        assert(!bit(rooks & unking, rt@));
    }

    /// What the rook of a castling needs of the board: a rook of the side
    /// stands where it starts, the square it goes to is empty, and its
    /// two squares are not those of the king.
    pub open spec fn rook_lands_well(self, m: Move) -> bool {
        m.castling matches Some(side) ==> {
            let detail = match side {
                CastlingSide::OOO => self.metadata.castling_details.ooo,
                CastlingSide::OO => self.metadata.castling_details.oo,
            };
            let step = detail.rook_move.as_move_spec(self.metadata.to_move.starting_rank_spec());
            &&& step.from.on_board()
            &&& step.to.on_board()
            &&& step.from != step.to
            &&& self.mover().rooks.0.has(step.from@)
            &&& !self.mover().as_mask_spec().has(step.to@)
            &&& !self.waiter().as_mask_spec().has(step.to@)
            &&& step.to != m.from_to.to
            &&& step.to != m.from_to.from
            &&& step.from != m.from_to.to
            &&& step.from != m.from_to.from
        }
    }
}

} // verus!
