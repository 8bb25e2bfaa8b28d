//! What holds of the moves that the generator makes.

use vstd::prelude::*;
use crate::board::BitBoard;
use crate::castling::CastlingSide;
use crate::enums::{ColorPiece, Piece};
use crate::half::HalfBitBoard;
use crate::masks::{lemma_fold_keeps, Mask};
use crate::moves::Move;
use crate::pieces::kings::{castling_of, castling_open};
use crate::pieces::pawns::{
    capture_dests, capture_step, en_passant_onto, forward, pawn_attacks, pawn_from_step,
    promotion_rank_spec, promotions_onto, push_dests, push_step,
};
use crate::pieces::{plain_dests, plain_from_step, plain_moves_onto, plain_step, unfiltered_step};
use crate::squares::{lemma_square_of, Square};

verus! {

impl BitBoard {
    /// The pieces of the side to move.
    pub open spec fn mover(self) -> HalfBitBoard {
        self.side(self.metadata.to_move)
    }

    /// The pieces of the side that is not to move.
    pub open spec fn waiter(self) -> HalfBitBoard {
        self.side(self.metadata.to_move.other_spec())
    }

    /// Whether the step of a move with what it captures leaves the king
    /// of the side to move attacked.
    pub open spec fn exposes_king(self, m: Move) -> bool {
        m.from_to.makes_king_checked_spec(
            self.mover().as_mask_spec(),
            self.mover().kings,
            m.capture,
            self.waiter(),
            self.metadata.to_move.other_spec(),
        )
    }

    /// A move of a queen, a rook, a bishop or a knight of the side to
    /// move: from a square of such a piece to a square that it reaches,
    /// capturing what stands there, and not leaving the king attacked.
    pub open spec fn plain_move(self, kind: Piece, m: Move) -> bool {
        let reach = plain_dests(
            kind,
            m.from_to.from,
            self.mover().as_mask_spec(),
            if kind == Piece::Knight {
                Mask(0)
            } else {
                self.waiter().as_mask_spec()
            },
        );
        &&& kind == Piece::Queen || kind == Piece::Rook || kind == Piece::Bishop || kind
            == Piece::Knight
        &&& m.color_and_piece == ColorPiece::of(self.metadata.to_move, kind)
        &&& m.castling.is_none()
        &&& m.promotion.is_none()
        &&& m.from_to.from.on_board()
        &&& m.from_to.to.on_board()
        &&& self.mover().piece_mask_spec(kind).has(m.from_to.from@)
        &&& reach.has(m.from_to.to@)
        &&& m.capture == self.waiter().capture_at(m.from_to.to)
        &&& !self.exposes_king(m)
    }

    /// A step of a king of the side to move: to a square next to it that
    /// holds no piece of its side and is not attacked once the king has
    /// left its square, capturing what stands there.
    pub open spec fn king_step(self, m: Move) -> bool {
        &&& m.color_and_piece == ColorPiece::of(self.metadata.to_move, Piece::King)
        &&& m.castling.is_none()
        &&& m.promotion.is_none()
        &&& m.from_to.from.on_board()
        &&& m.from_to.to.on_board()
        &&& self.mover().kings.0.has(m.from_to.from@)
        &&& self.mover().kings.steps_spec(
            m.from_to.from,
            self.mover().as_mask_spec(),
            self.waiter(),
            self.metadata.to_move,
        ).has(m.from_to.to@)
        &&& m.capture == self.waiter().capture_at(m.from_to.to)
    }

    /// A castling of the side to move: it has the right, and the move is
    /// open.
    pub open spec fn castling_move(self, m: Move) -> bool {
        let color = self.metadata.to_move;
        let a = self.mover().as_mask_spec();
        let p = self.waiter().as_mask_spec();
        let unking = Mask((p.0 | a.0) & !self.mover().kings.0.0);
        let threats = self.waiter().threats_spec(color.other_spec(), a, None);
        let rights = self.metadata.rights_of(color);
        let details = self.metadata.castling_details;
        ||| (rights.ooo && castling_open(
            self.mover().kings.0,
            color.starting_rank_spec(),
            details.ooo,
            threats,
            unking,
        ) && m == castling_of(color, details.ooo, CastlingSide::OOO))
        ||| (rights.oo && castling_open(
            self.mover().kings.0,
            color.starting_rank_spec(),
            details.oo,
            threats,
            unking,
        ) && m == castling_of(color, details.oo, CastlingSide::OO))
    }

    /// What a pawn move has of a promotion: on the last rank the pawn
    /// turns into a queen, a rook, a bishop or a knight, and nowhere
    /// else into anything.
    pub open spec fn promotes_well(self, m: Move) -> bool {
        if m.from_to.to.rank_spec() == promotion_rank_spec(self.metadata.to_move) {
            m.promotion == Some(Piece::Queen) || m.promotion == Some(Piece::Rook) || m.promotion
                == Some(Piece::Bishop) || m.promotion == Some(Piece::Knight)
        } else {
            m.promotion.is_none()
        }
    }

    /// A move of a pawn of the side to move: a push to a square that no
    /// piece stands on or before, a capture of the piece on a square that
    /// the pawn attacks, or the capture in passing that is open; with a
    /// promotion on the last rank; and not leaving the king attacked.
    pub open spec fn pawn_move(self, m: Move) -> bool {
        let color = self.metadata.to_move;
        let a = self.mover().as_mask_spec();
        let p = self.waiter().as_mask_spec();
        let from = m.from_to.from;
        let to = m.from_to.to;
        &&& m.color_and_piece == ColorPiece::of(color, Piece::Pawn)
        &&& m.castling.is_none()
        &&& from.on_board()
        &&& to.on_board()
        &&& self.mover().pawns.0.has(from@)
        &&& !self.exposes_king(m)
        &&& {
            ||| (push_dests(color, from, a, p).has(to@) && m.capture.is_none()
                && self.promotes_well(m))
            ||| (capture_dests(color, from, p).has(to@) && m.capture.is_some() && m.capture
                == self.waiter().capture_at(to) && self.promotes_well(m))
            ||| (self.metadata.en_passant matches Some(ep) && ep.to == to && pawn_attacks(
                from,
                forward(color),
            ).has(to@) && m.capture == Some((ep.capture, Piece::Pawn)) && m.promotion.is_none())
        }
    }

    /// What holds of each move that the generator makes.
    pub open spec fn generated(self, m: Move) -> bool {
        ||| self.plain_move(Piece::Queen, m)
        ||| self.plain_move(Piece::Rook, m)
        ||| self.plain_move(Piece::Bishop, m)
        ||| self.plain_move(Piece::Knight, m)
        ||| self.pawn_move(m)
        ||| self.king_step(m)
        ||| self.castling_move(m)
    }

    /// What holds of each move that the generator makes holds of each
    /// move of a list.
    pub open spec fn all_generated(self, moves: Seq<Move>) -> bool {
        forall|i: int| 0 <= i < moves.len() ==> self.generated(#[trigger] moves[i])
    }

    #[verifier::rlimit(50)]
    proof fn lemma_plain_generated(self, kind: Piece, acc: Seq<Move>)
        requires
            kind == Piece::Queen || kind == Piece::Rook || kind == Piece::Bishop || kind
                == Piece::Knight,
            self.all_generated(acc),
        ensures
            self.all_generated(
                plain_moves_onto(
                    kind,
                    self.mover().piece_mask_spec(kind),
                    self.metadata.to_move,
                    self.mover().as_mask_spec(),
                    if kind == Piece::Knight {
                        Mask(0)
                    } else {
                        self.waiter().as_mask_spec()
                    },
                    self.waiter(),
                    self.mover().kings,
                    acc,
                ),
            ),
    {
        let color = self.metadata.to_move;
        let a = self.mover().as_mask_spec();
        let pm = if kind == Piece::Knight {
            Mask(0)
        } else {
            self.waiter().as_mask_spec()
        };
        let passive = self.waiter();
        let kings = self.mover().kings;
        let pieces = self.mover().piece_mask_spec(kind);
        let cp = ColorPiece::of(color, kind);
        let p = |s: Seq<Move>| self.all_generated(s);
        let outer = plain_from_step(kind, color, a, pm, passive, kings);
        assert forall|acc2: Seq<Move>, from: int|
            0 <= from < 64 && pieces.has(from) && p(acc2) implies #[trigger] p(
            outer(acc2, from),
        ) by {
            let sq = Square::of(from);
            lemma_square_of(from);
            let dests = plain_dests(kind, sq, a, pm);
            let inner = plain_step(cp, sq, a, kings, passive);
            assert forall|acc3: Seq<Move>, to: int|
                0 <= to < 64 && dests.has(to) && p(acc3) implies #[trigger] p(inner(acc3, to)) by {
                lemma_square_of(to);
                let m = Move::plain(cp, sq, Square::of(to), passive.capture_at(Square::of(to)));
                if !self.exposes_king(m) {
                    assert(self.plain_move(kind, m));
                    assert(self.generated(m));
                }
            }
            lemma_fold_keeps(dests, 64, acc2, inner, p);
        }
        lemma_fold_keeps(pieces, 64, acc, outer, p);
    }

    proof fn lemma_promotions_generated(self, acc: Seq<Move>, m: Move)
        requires
            self.all_generated(acc),
            m.promotion.is_none(),
            m.color_and_piece == ColorPiece::of(self.metadata.to_move, Piece::Pawn),
            forall|k: Option<Piece>|
                self.promotes_well(Move { promotion: k, ..m }) ==> #[trigger] self.pawn_move(
                    Move { promotion: k, ..m },
                ),
        ensures
            self.all_generated(promotions_onto(acc, m)),
    {
        let q = Move { promotion: Some(Piece::Queen), ..m };
        let r = Move { promotion: Some(Piece::Rook), ..m };
        let b = Move { promotion: Some(Piece::Bishop), ..m };
        let n = Move { promotion: Some(Piece::Knight), ..m };
        let none = Move { promotion: None, ..m };
        if m.from_to.to.rank_spec() == promotion_rank_spec(m.color_and_piece.color_spec()) {
            assert(self.pawn_move(q));
            assert(self.pawn_move(r));
            assert(self.pawn_move(b));
            assert(self.pawn_move(n));
            assert(self.generated(q) && self.generated(r) && self.generated(b) && self.generated(n));
        } else {
            assert(self.pawn_move(none));
            assert(none == m);
            assert(self.generated(m));
        }
    }

    #[verifier::rlimit(50)]
    proof fn lemma_pawns_generated(self, acc: Seq<Move>)
        requires
            self.all_generated(acc),
        ensures
            self.all_generated(
                self.mover().pawns.moves_onto(
                    self.metadata.to_move,
                    self.mover().as_mask_spec(),
                    self.waiter().as_mask_spec(),
                    self.waiter(),
                    self.metadata.en_passant,
                    self.mover().kings,
                    acc,
                ),
            ),
    {
        let color = self.metadata.to_move;
        let a = self.mover().as_mask_spec();
        let pm = self.waiter().as_mask_spec();
        let passive = self.waiter();
        let kings = self.mover().kings;
        let pieces = self.mover().pawns.0;
        let cp = ColorPiece::of(color, Piece::Pawn);
        let ep = self.metadata.en_passant;
        let p = |s: Seq<Move>| self.all_generated(s);
        let outer = pawn_from_step(color, a, pm, passive, ep, kings);
        assert forall|acc2: Seq<Move>, from: int|
            0 <= from < 64 && pieces.has(from) && p(acc2) implies #[trigger] p(
            outer(acc2, from),
        ) by {
            let sq = Square::of(from);
            lemma_square_of(from);
            let pushes = push_dests(color, sq, a, pm);
            let push = push_step(color, sq, a, kings, passive);
            assert forall|acc3: Seq<Move>, to: int|
                0 <= to < 64 && pushes.has(to) && p(acc3) implies #[trigger] p(push(acc3, to)) by {
                lemma_square_of(to);
                let m = Move::plain(cp, sq, Square::of(to), None);
                if !self.exposes_king(m) {
                    assert forall|k: Option<Piece>|
                        self.promotes_well(Move { promotion: k, ..m }) implies #[trigger]
                        self.pawn_move(Move { promotion: k, ..m }) by {
                        let mk = Move { promotion: k, ..m };
                        assert(self.exposes_king(mk) == self.exposes_king(m));
                    }
                    self.lemma_promotions_generated(acc3, m);
                }
            }
            lemma_fold_keeps(pushes, 64, acc2, push, p);
            let pushed = pushes.fold(64, acc2, push);
            let captures = capture_dests(color, sq, pm);
            let capture = capture_step(color, sq, a, kings, passive);
            assert forall|acc3: Seq<Move>, to: int|
                0 <= to < 64 && captures.has(to) && p(acc3) implies #[trigger] p(
                capture(acc3, to),
            ) by {
                lemma_square_of(to);
                let cap = passive.capture_at(Square::of(to));
                let m = Move::plain(cp, sq, Square::of(to), cap);
                if cap.is_some() && !self.exposes_king(m) {
                    assert forall|k: Option<Piece>|
                        self.promotes_well(Move { promotion: k, ..m }) implies #[trigger]
                        self.pawn_move(Move { promotion: k, ..m }) by {
                        let mk = Move { promotion: k, ..m };
                        assert(self.exposes_king(mk) == self.exposes_king(m));
                    }
                    self.lemma_promotions_generated(acc3, m);
                }
            }
            lemma_fold_keeps(captures, 64, pushed, capture, p);
            let captured = captures.fold(64, pushed, capture);
            match ep {
                None => {},
                Some(e) => {
                    let m = Move::plain(cp, sq, e.to, Some((e.capture, Piece::Pawn)));
                    if pawn_attacks(sq, forward(color)).has(e.to@) && !self.exposes_king(m) {
                        assert(self.pawn_move(m));
                        assert(self.generated(m));
                    }
                },
            }
            assert(outer(acc2, from) == en_passant_onto(color, sq, a, kings, passive, ep, captured));
        }
        lemma_fold_keeps(pieces, 64, acc, outer, p);
    }

    #[verifier::rlimit(50)]
    proof fn lemma_kings_generated(self, acc: Seq<Move>)
        requires
            self.all_generated(acc),
        ensures
            self.all_generated(
                self.mover().kings.moves_onto(
                    self.metadata.to_move,
                    self.mover().as_mask_spec(),
                    self.waiter().as_mask_spec(),
                    self.waiter(),
                    self.metadata.rights_of(self.metadata.to_move),
                    self.metadata.castling_details,
                    acc,
                ),
            ),
    {
        let color = self.metadata.to_move;
        let a = self.mover().as_mask_spec();
        let pm = self.waiter().as_mask_spec();
        let passive = self.waiter();
        let kings = self.mover().kings;
        let cp = ColorPiece::of(color, Piece::King);
        let p = |s: Seq<Move>| self.all_generated(s);
        let outer = kings.step_moves_spec(color, a, passive);
        assert forall|acc2: Seq<Move>, from: int|
            0 <= from < 64 && kings.0.has(from) && p(acc2) implies #[trigger] p(
            outer(acc2, from),
        ) by {
            let sq = Square::of(from);
            lemma_square_of(from);
            let dests = kings.steps_spec(sq, a, passive, color);
            let inner = unfiltered_step(cp, sq, passive);
            assert forall|acc3: Seq<Move>, to: int|
                0 <= to < 64 && dests.has(to) && p(acc3) implies #[trigger] p(inner(acc3, to)) by {
                lemma_square_of(to);
                let m = Move::plain(cp, sq, Square::of(to), passive.capture_at(Square::of(to)));
                assert(self.king_step(m));
                assert(self.generated(m));
            }
            lemma_fold_keeps(dests, 64, acc2, inner, p);
        }
        lemma_fold_keeps(kings.0, 64, acc, outer, p);
        let steps = kings.0.fold(64, acc, outer);
        let details = self.metadata.castling_details;
        let rights = self.metadata.rights_of(color);
        let ooo = castling_of(color, details.ooo, CastlingSide::OOO);
        let oo = castling_of(color, details.oo, CastlingSide::OO);
        let with_ooo = kings.castling_onto(
            color,
            a,
            pm,
            passive,
            rights.ooo,
            details.ooo,
            CastlingSide::OOO,
            steps,
        );
        if with_ooo != steps {
            assert(self.castling_move(ooo));
            assert(self.generated(ooo));
        }
        assert(self.all_generated(with_ooo));
        let with_oo = kings.castling_onto(
            color,
            a,
            pm,
            passive,
            rights.oo,
            details.oo,
            CastlingSide::OO,
            with_ooo,
        );
        if with_oo != with_ooo {
            assert(self.castling_move(oo));
            assert(self.generated(oo));
        }
    }

    /// Every legal move of a position is a move of one of its pieces as
    /// the rules have it: each move that the generator makes is a move of
    /// a queen, a rook, a bishop, a knight or a pawn that does not leave
    /// the king attacked, a step of the king to a square that is not
    /// attacked, or a castling that is open.
    pub proof fn lemma_moves_generated(self)
        ensures
            self.all_generated(self.legal_moves()),
    {
        self.lemma_moves_onto_generated(Seq::empty());
    }

    /// Appending the legal moves to moves of which this holds keeps it.
    pub proof fn lemma_moves_onto_generated(self, acc: Seq<Move>)
        requires
            self.all_generated(acc),
        ensures
            self.all_generated(self.moves_onto(acc)),
    {
        let color = self.metadata.to_move;
        let active = self.mover();
        let passive = self.waiter();
        let a = active.as_mask_spec();
        let p = passive.as_mask_spec();
        let kings = active.kings;
        self.lemma_plain_generated(Piece::Queen, acc);
        let queens = plain_moves_onto(Piece::Queen, active.queens.0, color, a, p, passive, kings, acc);
        self.lemma_plain_generated(Piece::Rook, queens);
        let rooks = plain_moves_onto(Piece::Rook, active.rooks.0, color, a, p, passive, kings, queens);
        self.lemma_plain_generated(Piece::Bishop, rooks);
        let bishops = plain_moves_onto(
            Piece::Bishop,
            active.bishops.0,
            color,
            a,
            p,
            passive,
            kings,
            rooks,
        );
        self.lemma_plain_generated(Piece::Knight, bishops);
        let knights = plain_moves_onto(
            Piece::Knight,
            active.knights.0,
            color,
            a,
            Mask(0),
            passive,
            kings,
            bishops,
        );
        self.lemma_pawns_generated(knights);
        let pawns = active.pawns.moves_onto(
            color,
            a,
            p,
            passive,
            self.metadata.en_passant,
            kings,
            knights,
        );
        self.lemma_kings_generated(pawns);
    }
}

} // verus!
