//! Where the pieces stand after a move, and what stays true of the
//! position.

use vstd::prelude::*;
use crate::bits::{group_bit_facts, single};
use crate::board::BitBoard;
use crate::castling::CastlingSide;
use crate::enums::{Color, Piece};
use crate::masks::{lemma_mask_equal, Mask};
use crate::moves::{Move, ProtoMove};
use crate::pieces::pawns::{capture_dests, forward, pawn_attacks, pawn_pushes, push_dests};
use crate::pieces::lemma_slide_word;
use crate::squares::{lemma_square_of, Square};
use crate::geometry::{lemma_pawn_attacks, lemma_pawn_pushes};

verus! {

impl BitBoard {
    /// The squares of the castling rook's step, if the move castles.
    pub open spec fn rook_step(self, m: Move) -> Option<ProtoMove> {
        match m.castling {
            Some(side) => {
                let detail = match side {
                    CastlingSide::OOO => self.metadata.castling_details.ooo,
                    CastlingSide::OO => self.metadata.castling_details.oo,
                };
                Some(
                    detail.rook_move.as_move_spec(m.color_and_piece.color_spec().starting_rank_spec()),
                )
            },
            None => None,
        }
    }

    /// Whether a piece of a kind of the moving side stands on a square
    /// after a move: the moving piece has gone from its square to the
    /// other, as what it is promoted to if it is, the rook of a castling
    /// has made its step, and the rest stands as before.
    pub open spec fn mover_has_after(self, m: Move, k: Piece, i: int) -> bool {
        let before = self.mover().piece_mask_spec(k).has(i);
        let from = m.from_to.from@;
        let to = m.from_to.to@;
        let piece = m.color_and_piece.piece_spec();
        let left = match m.promotion {
            Some(_) => Piece::Pawn,
            None => piece,
        };
        let arrived = match m.promotion {
            Some(pk) => pk,
            None => piece,
        };
        let rook = self.rook_step(m);
        if k == arrived && i == to {
            true
        } else if k == left && i == from {
            false
        } else if k == Piece::Rook && rook.is_some() && i == rook.unwrap().to@ {
            true
        } else if k == Piece::Rook && rook.is_some() && i == rook.unwrap().from@ {
            false
        } else {
            before
        }
    }

    /// Whether a piece of a kind of the other side stands on a square
    /// after a move: the captured piece has gone.
    pub open spec fn waiter_has_after(self, m: Move, k: Piece, i: int) -> bool {
        let before = self.waiter().piece_mask_spec(k).has(i);
        match m.capture {
            Some((sq, ck)) => before && !(k == ck && i == sq@),
            None => before,
        }
    }

    /// Where the pieces stand after a move that the generator has made.
    #[verifier::rlimit(50)]
    pub proof fn lemma_after(self, m: Move)
        requires
            self.valid(),
            self.generated(m),
        ensures
            forall|k: Piece, i: int|
                0 <= i < 64 ==> (#[trigger] self.active_after(m).piece_mask_spec(k).has(i)
                    <==> self.mover_has_after(m, k, i)),
            forall|k: Piece, i: int|
                0 <= i < 64 ==> (#[trigger] self.passive_after(m).piece_mask_spec(k).has(i)
                    <==> self.waiter_has_after(m, k, i)),
            self.apply_spec(m).waiter() == self.active_after(m),
            self.apply_spec(m).mover() == self.passive_after(m),
            self.apply_spec(m).metadata == self.metadata_after(m),
    {
        broadcast use group_bit_facts;

        self.lemma_lands_well(m);
        if self.castling_move(m) {
            self.lemma_castling_lands(m);
        }
        let color = self.metadata.to_move;
        let active = self.mover();
        let passive = self.waiter();
        let from = m.from_to.from;
        let to = m.from_to.to;
        let piece = m.color_and_piece.piece_spec();
        assert forall|k: Piece, i: int| 0 <= i < 64 implies (#[trigger] self.passive_after(
            m,
        ).piece_mask_spec(k).has(i) <==> self.waiter_has_after(m, k, i)) by {
            match m.capture {
                Some((sq, ck)) => {
                    passive.lemma_toggled(ck, sq.as_mask_spec(), k, i);
                },
                None => {},
            }
        }
        assert forall|k: Piece, i: int| 0 <= i < 64 implies (#[trigger] self.active_after(
            m,
        ).piece_mask_spec(k).has(i) <==> self.mover_has_after(m, k, i)) by {
            active.lemma_as_mask_has(to@);
            let moved = match m.promotion {
                Some(pk) => {
                    let mid = active.toggled(Piece::Pawn, from.as_mask_spec());
                    active.lemma_toggled(Piece::Pawn, from.as_mask_spec(), k, i);
                    mid.lemma_toggled(pk, to.as_mask_spec(), k, i);
                    mid.toggled(pk, to.as_mask_spec())
                },
                None => {
                    active.lemma_toggled(piece, m.from_to.as_mask_spec(), k, i);
                    active.toggled(piece, m.from_to.as_mask_spec())
                },
            };
            match self.rook_step(m) {
                Some(step) => {
                    active.lemma_as_mask_has(step.to@);
                    moved.lemma_toggled(Piece::Rook, step.as_mask_spec(), k, i);
                },
                None => {},
            }
        }
    }

    /// After a move that the generator has made, no square holds two
    /// pieces.
    #[verifier::rlimit(50)]
    pub proof fn lemma_stays_apart(self, m: Move)
        requires
            self.valid(),
            self.generated(m),
        ensures
            self.apply_spec(m).sides_apart(),
            self.apply_spec(m).kinds_apart(),
    {
        self.lemma_after(m);
        self.lemma_lands_well(m);
        if self.castling_move(m) {
            self.lemma_castling_lands(m);
        }
        let after = self.apply_spec(m);
        let act = self.active_after(m);
        let pas = self.passive_after(m);
        let from = m.from_to.from;
        let to = m.from_to.to;
        assert(self.mover().disjoint() && self.waiter().disjoint());
        assert forall|i: int, x: Piece, y: Piece| 0 <= i < 64 && x != y implies !(
        #[trigger] pas.piece_mask_spec(x).has(i) && #[trigger] pas.piece_mask_spec(y).has(i)) by {
            assert(!(self.waiter().piece_mask_spec(x).has(i) && self.waiter().piece_mask_spec(
                y,
            ).has(i)));
        }
        assert forall|i: int, x: Piece, y: Piece| 0 <= i < 64 && x != y implies !(
        #[trigger] act.piece_mask_spec(x).has(i) && #[trigger] act.piece_mask_spec(y).has(i)) by {
            self.mover().lemma_as_mask_has(i);
            assert(!(self.mover().piece_mask_spec(x).has(i) && self.mover().piece_mask_spec(y).has(
                i,
            )));
            assert(act.piece_mask_spec(x).has(i) <==> self.mover_has_after(m, x, i));
            assert(act.piece_mask_spec(y).has(i) <==> self.mover_has_after(m, y, i));
        }
        assert forall|i: int| 0 <= i < 64 implies !(#[trigger] after.white.as_mask_spec().has(i)
            && after.black.as_mask_spec().has(i)) by {
            act.lemma_as_mask_has(i);
            pas.lemma_as_mask_has(i);
            self.mover().lemma_as_mask_has(i);
            self.waiter().lemma_as_mask_has(i);
            assert(!(self.white.as_mask_spec().has(i) && self.black.as_mask_spec().has(i)));
            if act.as_mask_spec().has(i) && pas.as_mask_spec().has(i) {
                let k1 = choose|k: Piece| #[trigger] pas.piece_mask_spec(k).has(i);
                let k2 = choose|k: Piece| #[trigger] act.piece_mask_spec(k).has(i);
                assert(self.waiter_has_after(m, k1, i));
                assert(self.mover_has_after(m, k2, i));
                assert(self.waiter().piece_mask_spec(k1).has(i));
                if i == to@ {
                    match m.capture {
                        Some((sq, ck)) => {
                            if sq == to {
                                assert(self.waiter().piece_mask_spec(ck).has(i));
                                assert(k1 != ck);
                            }
                        },
                        None => {},
                    }
                    assert(false);
                } else if self.rook_step(m).is_some() && i == self.rook_step(m).unwrap().to@ {
                    assert(false);
                } else {
                    assert(self.mover().piece_mask_spec(k2).has(i));
                    assert(false);
                }
            }
        }
    }

    /// After a move that the generator has made, each side has one king.
    #[verifier::rlimit(50)]
    pub proof fn lemma_stays_one_king(self, m: Move)
        requires
            self.valid(),
            self.generated(m),
        ensures
            self.apply_spec(m).one_king_each(),
    {
        broadcast use group_bit_facts;

        self.lemma_after(m);
        self.lemma_lands_well(m);
        self.lemma_no_king_capture(m);
        let act = self.active_after(m);
        let pas = self.passive_after(m);
        let from = m.from_to.from;
        let to = m.from_to.to;
        let kings = self.mover().kings.0;
        assert forall|i: int| 0 <= i < 64 implies pas.kings.0.has(i) == self.waiter().kings.0.has(
            i,
        ) by {
            assert(pas.piece_mask_spec(Piece::King).has(i) <==> self.waiter_has_after(
                m,
                Piece::King,
                i,
            ));
        }
        lemma_mask_equal(pas.kings.0, self.waiter().kings.0);
        if m.color_and_piece.piece_spec() == Piece::King {
            self.mover().lemma_as_mask_has(to@);
            let stepped = Mask(kings.0 ^ (single(from@) | single(to@)));
            assert forall|i: int| 0 <= i < 64 implies act.kings.0.has(i) == stepped.has(i) by {
                assert(act.piece_mask_spec(Piece::King).has(i) <==> self.mover_has_after(
                    m,
                    Piece::King,
                    i,
                ));
            }
            lemma_mask_equal(act.kings.0, stepped);
            crate::masks::lemma_count_step(kings, from@, to@);
        } else {
            assert forall|i: int| 0 <= i < 64 implies act.kings.0.has(i) == kings.has(i) by {
                assert(act.piece_mask_spec(Piece::King).has(i) <==> self.mover_has_after(
                    m,
                    Piece::King,
                    i,
                ));
            }
            lemma_mask_equal(act.kings.0, kings);
        }
    }
}

impl BitBoard {
    /// After a move that the generator has made, a side that has a
    /// castling right has its king and the rook where the castling
    /// starts.
    #[verifier::rlimit(50)]
    pub proof fn lemma_stays_castling_sound(self, m: Move)
        requires
            self.valid(),
            self.generated(m),
        ensures
            self.apply_spec(m).castling_sound(Color::White),
            self.apply_spec(m).castling_sound(Color::Black),
            self.apply_spec(m).metadata.castling_details == self.metadata.castling_details,
    {
        self.lemma_after(m);
        self.lemma_lands_well(m);
        self.lemma_no_king_capture(m);
        if self.castling_move(m) {
            self.lemma_castling_lands(m);
        }
        let color = self.metadata.to_move;
        let other = color.other_spec();
        let after = self.apply_spec(m);
        let details = self.metadata.castling_details;
        let act = self.active_after(m);
        let pas = self.passive_after(m);
        assert(self.castling_sound(color) && self.castling_sound(other));
        let rank = color.starting_rank_spec();
        let orank = other.starting_rank_spec();
        lemma_square_of(8 * rank.ix() + details.ooo.king_move.from.ix());
        lemma_square_of(8 * rank.ix() + details.ooo.rook_move.from.ix());
        lemma_square_of(8 * rank.ix() + details.oo.king_move.from.ix());
        lemma_square_of(8 * rank.ix() + details.oo.rook_move.from.ix());
        lemma_square_of(8 * orank.ix() + details.ooo.king_move.from.ix());
        lemma_square_of(8 * orank.ix() + details.ooo.rook_move.from.ix());
        lemma_square_of(8 * orank.ix() + details.oo.king_move.from.ix());
        lemma_square_of(8 * orank.ix() + details.oo.rook_move.from.ix());
        crate::squares::lemma_square_of_view(m.from_to.from);
        match m.capture {
            Some((sq, _)) => {
                crate::squares::lemma_square_of_view(sq);
            },
            None => {},
        }
        // the side that moved
        assert(after.castling_sound(color)) by {
            let rights = after.metadata.rights_of(color);
            let kf1 = Square::at_spec(details.ooo.king_move.from, rank)@;
            let rf1 = Square::at_spec(details.ooo.rook_move.from, rank)@;
            let kf2 = Square::at_spec(details.oo.king_move.from, rank)@;
            let rf2 = Square::at_spec(details.oo.rook_move.from, rank)@;
            assert(act.piece_mask_spec(Piece::King).has(kf1) <==> self.mover_has_after(
                m,
                Piece::King,
                kf1,
            ));
            assert(act.piece_mask_spec(Piece::Rook).has(rf1) <==> self.mover_has_after(
                m,
                Piece::Rook,
                rf1,
            ));
            assert(act.piece_mask_spec(Piece::King).has(kf2) <==> self.mover_has_after(
                m,
                Piece::King,
                kf2,
            ));
            assert(act.piece_mask_spec(Piece::Rook).has(rf2) <==> self.mover_has_after(
                m,
                Piece::Rook,
                rf2,
            ));
            self.mover().lemma_as_mask_has(m.from_to.to@);
        }
        // the other side
        assert(after.castling_sound(other)) by {
            let kf1 = Square::at_spec(details.ooo.king_move.from, orank)@;
            let rf1 = Square::at_spec(details.ooo.rook_move.from, orank)@;
            let kf2 = Square::at_spec(details.oo.king_move.from, orank)@;
            let rf2 = Square::at_spec(details.oo.rook_move.from, orank)@;
            assert(pas.piece_mask_spec(Piece::King).has(kf1) <==> self.waiter_has_after(
                m,
                Piece::King,
                kf1,
            ));
            assert(pas.piece_mask_spec(Piece::Rook).has(rf1) <==> self.waiter_has_after(
                m,
                Piece::Rook,
                rf1,
            ));
            assert(pas.piece_mask_spec(Piece::King).has(kf2) <==> self.waiter_has_after(
                m,
                Piece::King,
                kf2,
            ));
            assert(pas.piece_mask_spec(Piece::Rook).has(rf2) <==> self.waiter_has_after(
                m,
                Piece::Rook,
                rf2,
            ));
        }
    }

    /// After a move that the generator has made, the capture in passing
    /// that is open is in keeping with the pieces: it is open after a
    /// pawn has gone two squares, the pawn stands where it can be
    /// captured, and the square that it passed is empty.
    #[verifier::rlimit(50)]
    pub proof fn lemma_stays_en_passant_sound(self, m: Move)
        requires
            self.valid(),
            self.generated(m),
        ensures
            self.apply_spec(m).en_passant_sound(),
    {
        broadcast use group_bit_facts;

        self.lemma_after(m);
        self.lemma_lands_well(m);
        let color = self.metadata.to_move;
        let after = self.apply_spec(m);
        let act = self.active_after(m);
        let pas = self.passive_after(m);
        let from = m.from_to.from;
        let to = m.from_to.to;
        let a = self.mover().as_mask_spec();
        let p = self.waiter().as_mask_spec();
        match m.en_passant_square_spec() {
            None => {},
            Some(ep) => {
                assert(self.pawn_move(m));
                let dir = forward(color);
                let mid = from@ + 8 * dir.dy();
                lemma_square_of(mid);
                lemma_square_of(from@ + 16 * dir.dy());
                if capture_dests(color, from, p).has(to@) {
                    lemma_pawn_attacks(from, dir, to@);
                }
                if pawn_attacks(from, dir).has(to@) {
                    lemma_pawn_attacks(from, dir, to@);
                }
                assert(push_dests(color, from, a, p).has(to@));
                let pushes = pawn_pushes(from, dir);
                lemma_slide_word(color == Color::White, pushes, Mask(a.0 | p.0), Mask(0), to@);
                lemma_pawn_pushes(from, dir, to@);
                assert(to@ == from@ + 16 * dir.dy());
                assert(ep.to@ == mid);
                assert(ep.capture@ == to@);
                assert(pushes.has(mid));
                assert(!Mask(a.0 | p.0).has(mid));
                assert(act.piece_mask_spec(Piece::Pawn).has(to@) <==> self.mover_has_after(
                    m,
                    Piece::Pawn,
                    to@,
                ));
                act.lemma_as_mask_has(mid);
                pas.lemma_as_mask_has(mid);
                self.mover().lemma_as_mask_has(mid);
                self.waiter().lemma_as_mask_has(mid);
                if act.as_mask_spec().has(mid) {
                    let k = choose|k: Piece| #[trigger] act.piece_mask_spec(k).has(mid);
                    assert(self.mover_has_after(m, k, mid));
                }
                if pas.as_mask_spec().has(mid) {
                    let k = choose|k: Piece| #[trigger] pas.piece_mask_spec(k).has(mid);
                    assert(self.waiter_has_after(m, k, mid));
                }
            },
        }
    }
}

} // verus!
