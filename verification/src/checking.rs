//! Telling at run time whether a position is one as it arises in play.

use vstd::prelude::*;
use crate::bits::{bit, group_bit_facts, lemma_bit_nonzero, lemma_lowest, lowest};
use crate::board::BitBoard;
use crate::castling::CastlingDetail;
use crate::enums::{Color, Piece, Rank};
use crate::half::HalfBitBoard;
use crate::masks::Mask;
use crate::squares::Square;

verus! {

/// Two sets share no square where their words share no bit.
pub proof fn lemma_apart(a: Mask, b: Mask)
    ensures
        a.0 & b.0 == 0 <==> forall|i: int| 0 <= i < 64 ==> !(#[trigger] a.has(i) && b.has(i)),
{
    broadcast use group_bit_facts;

    let both = a.0 & b.0;
    if both != 0 {
        lemma_lowest(both);
        let z = lowest(both);
        assert(a.has(z) && b.has(z));
    } else {
        assert forall|i: int| 0 <= i < 64 implies !(#[trigger] a.has(i) && b.has(i)) by {
            if a.has(i) && b.has(i) {
                assert(bit(both, i));
                lemma_bit_nonzero(both, i);
            }
        }
    }
}

impl CastlingDetail {
    /// Whether the castling is sound and goes inward.
    pub fn is_sound(&self) -> (r: bool)
        ensures
            r == (self.sound() && self.inward()),
    {
        let kf = self.king_move.from.as_file();
        let kt = self.king_move.to.as_file();
        let rf = self.rook_move.from.as_file();
        let rt = self.rook_move.to.as_file();
        proof {
            let km = self.king_mask;
            let rm = self.rook_mask;
            let ktu = kt as u8;
            let rtu = rt as u8;
            assert(ktu < 8 && rtu < 8 ==> ((km >> ktu) & 1 == 1 <==> (km as u64 >> (ktu as u64)) & 1
                == 1) && ((rm >> rtu) & 1 == 1 <==> (rm as u64 >> (rtu as u64)) & 1 == 1))
                by (bit_vector);
            assert(self.king_move.from != self.king_move.to <==> kf != kt);
            assert(self.rook_move.from != self.rook_move.to <==> rf != rt);
            assert(self.king_move.from != self.rook_move.from <==> kf != rf);
            assert(self.king_move.to != self.rook_move.to <==> kt != rt);
            assert(self.king_move.from != self.rook_move.to <==> kf != rt);
            assert(self.king_move.to != self.rook_move.from <==> kt != rf);
        }
        kf != kt && rf != rt && kf != rf && kt != rt && kf != rt && kt != rf && (self.king_mask >> (
        kt as u8)) & 1 == 1 && (self.rook_mask >> (rt as u8)) & 1 == 1 && (rf == 0 || rf == 7) && (
        rf >= kf || kt < kf) && (rf <= kf || kt > kf)
    }
}

impl HalfBitBoard {
    /// Whether no square holds pieces of two kinds.
    pub fn is_disjoint(&self) -> (r: bool)
        ensures
            r == self.disjoint(),
    {
        let k = self.kings.as_mask();
        let q = self.queens.as_mask();
        let r = self.rooks.as_mask();
        let b = self.bishops.as_mask();
        let n = self.knights.as_mask();
        let p = self.pawns.as_mask();
        let kq = k.overlay(q);
        let kqr = kq.overlay(r);
        let kqrb = kqr.overlay(b);
        let kqrbn = kqrb.overlay(n);
        let res = !k.overlap(q).any() && !kq.overlap(r).any() && !kqr.overlap(b).any()
            && !kqrb.overlap(n).any() && !kqrbn.overlap(p).any();
        proof {
            lemma_apart(k, q);
            lemma_apart(kq, r);
            lemma_apart(kqr, b);
            lemma_apart(kqrb, n);
            lemma_apart(kqrbn, p);
            if res {
                assert forall|i: int, x: Piece, y: Piece| 0 <= i < 64 && x != y implies !(
                #[trigger] self.piece_mask_spec(x).has(i) && #[trigger] self.piece_mask_spec(y).has(
                    i,
                )) by {
                    assert(!(k.has(i) && q.has(i)));
                    assert(!(kq.has(i) && r.has(i)));
                    assert(!(kqr.has(i) && b.has(i)));
                    assert(!(kqrb.has(i) && n.has(i)));
                    assert(!(kqrbn.has(i) && p.has(i)));
                }
            } else {
                if k.0 & q.0 != 0 {
                    let i = choose|i: int| 0 <= i < 64 && #[trigger] k.has(i) && q.has(i);
                    assert(self.piece_mask_spec(Piece::King).has(i) && self.piece_mask_spec(
                        Piece::Queen,
                    ).has(i));
                } else if kq.0 & r.0 != 0 {
                    let i = choose|i: int| 0 <= i < 64 && #[trigger] kq.has(i) && r.has(i);
                    assert(self.piece_mask_spec(Piece::Rook).has(i));
                    assert(self.piece_mask_spec(Piece::King).has(i) || self.piece_mask_spec(
                        Piece::Queen,
                    ).has(i));
                } else if kqr.0 & b.0 != 0 {
                    let i = choose|i: int| 0 <= i < 64 && #[trigger] kqr.has(i) && b.has(i);
                    assert(self.piece_mask_spec(Piece::Bishop).has(i));
                    assert(self.piece_mask_spec(Piece::King).has(i) || self.piece_mask_spec(
                        Piece::Queen,
                    ).has(i) || self.piece_mask_spec(Piece::Rook).has(i));
                } else if kqrb.0 & n.0 != 0 {
                    let i = choose|i: int| 0 <= i < 64 && #[trigger] kqrb.has(i) && n.has(i);
                    assert(self.piece_mask_spec(Piece::Knight).has(i));
                    assert(self.piece_mask_spec(Piece::King).has(i) || self.piece_mask_spec(
                        Piece::Queen,
                    ).has(i) || self.piece_mask_spec(Piece::Rook).has(i) || self.piece_mask_spec(
                        Piece::Bishop,
                    ).has(i));
                } else {
                    let i = choose|i: int| 0 <= i < 64 && #[trigger] kqrbn.has(i) && p.has(i);
                    assert(self.piece_mask_spec(Piece::Pawn).has(i));
                    assert(self.piece_mask_spec(Piece::King).has(i) || self.piece_mask_spec(
                        Piece::Queen,
                    ).has(i) || self.piece_mask_spec(Piece::Rook).has(i) || self.piece_mask_spec(
                        Piece::Bishop,
                    ).has(i) || self.piece_mask_spec(Piece::Knight).has(i));
                }
            }
        }
        res
    }
}

impl BitBoard {
    /// Whether the capture in passing that is open is in keeping with the
    /// pieces.
    pub fn en_passant_square_valid(&self) -> (r: bool)
        ensures
            r == self.en_passant_sound(),
    {
        match self.metadata.en_passant {
            None => true,
            Some(ep) => {
                proof {
                    use_type_invariant(ep.to);
                    use_type_invariant(ep.capture);
                }
                let rank = match self.metadata.to_move {
                    Color::Black => Rank::_3,
                    Color::White => Rank::_6,
                };
                self.passive().pawns.as_mask().contains(ep.capture)
                    && !self.active().as_mask().contains(ep.to) && !self.passive().as_mask().contains(
                    ep.to,
                ) && ep.to.rank() == rank
            },
        }
    }

    /// Whether a side that has a castling right has its king and the rook
    /// where the castling starts.
    pub fn castling_possible(&self, color: Color) -> (r: bool)
        ensures
            r == self.castling_sound(color),
    {
        let (rights, _) = self.metadata.castling_rights(color);
        let rank = color.starting_rank();
        let details = self.metadata.castling_details;
        let half = self.color(color);
        let kings = half.kings.as_mask();
        let rooks = half.rooks.as_mask();
        (!rights.ooo || (kings.contains(Square::at(details.ooo.king_move.from, rank))
            && rooks.contains(Square::at(details.ooo.rook_move.from, rank)))) && (!rights.oo || (
        kings.contains(Square::at(details.oo.king_move.from, rank)) && rooks.contains(
            Square::at(details.oo.rook_move.from, rank),
        )))
    }

    /// Whether the position is one as it arises in play.
    pub fn is_valid(&self) -> (r: bool)
        ensures
            r == self.valid(),
    {
        proof {
            lemma_apart(self.white.as_mask_spec(), self.black.as_mask_spec());
        }
        self.white.kings.as_mask().occupied() == 1 && self.black.kings.as_mask().occupied() == 1
            && !self.white.as_mask().overlap(self.black.as_mask()).any()
            && self.white.is_disjoint() && self.black.is_disjoint()
            && self.en_passant_square_valid() && self.metadata.castling_details.ooo.is_sound()
            && self.metadata.castling_details.oo.is_sound() && self.castling_possible(
            Color::White,
        ) && self.castling_possible(Color::Black) && !self.is_in_check(
            self.metadata.to_move.other(),
        )
    }
}

} // verus!
