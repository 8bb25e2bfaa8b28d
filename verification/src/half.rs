//! The pieces of one side.

use vstd::prelude::*;
use crate::bits::{group_bit_facts, single};
use crate::boardmap::BoardMap;
use crate::enums::{Color, ColorPiece, Millipawns, Piece, Shade};
use crate::masks::Mask;
use crate::pieces::bishops::Bishops;
use crate::pieces::kings::Kings;
use crate::pieces::knights::Knights;
use crate::pieces::pawns::Pawns;
use crate::pieces::queens::Queens;
use crate::pieces::rooks::Rooks;
use crate::squares::Square;

verus! {

/// The pieces of one side, a set of squares for each kind.
#[derive(Clone, Copy, PartialEq, Eq, Structural, Debug)]
pub struct HalfBitBoard {
    pub kings: Kings,
    pub queens: Queens,
    pub rooks: Rooks,
    pub bishops: Bishops,
    pub knights: Knights,
    pub pawns: Pawns,
}

impl HalfBitBoard {
    /// The squares that the side stands on.
    pub open spec fn as_mask_spec(self) -> Mask {
        Mask(
            self.kings.0.0 | self.queens.0.0 | self.rooks.0.0 | self.bishops.0.0
                | self.knights.0.0 | self.pawns.0.0,
        )
    }

    /// The squares of the pieces of one kind.
    pub open spec fn piece_mask_spec(self, piece: Piece) -> Mask {
        match piece {
            Piece::Pawn => self.pawns.0,
            Piece::Knight => self.knights.0,
            Piece::Bishop => self.bishops.0,
            Piece::Rook => self.rooks.0,
            Piece::Queen => self.queens.0,
            Piece::King => self.kings.0,
        }
    }

    /// The side with other squares for the pieces of one kind.
    pub open spec fn with_mask(self, piece: Piece, mask: Mask) -> HalfBitBoard {
        match piece {
            Piece::Pawn => HalfBitBoard { pawns: Pawns(mask), ..self },
            Piece::Knight => HalfBitBoard { knights: Knights(mask), ..self },
            Piece::Bishop => HalfBitBoard { bishops: Bishops(mask), ..self },
            Piece::Rook => HalfBitBoard { rooks: Rooks(mask), ..self },
            Piece::Queen => HalfBitBoard { queens: Queens(mask), ..self },
            Piece::King => HalfBitBoard { kings: Kings(mask), ..self },
        }
    }

    /// The side with the squares of `mask` toggled for one kind.
    pub open spec fn toggled(self, piece: Piece, mask: Mask) -> HalfBitBoard {
        self.with_mask(piece, Mask(self.piece_mask_spec(piece).0 ^ mask.0))
    }

    /// No square holds pieces of two kinds.
    pub open spec fn disjoint(self) -> bool {
        forall|i: int, p: Piece, q: Piece|
            0 <= i < 64 && p != q ==> !(#[trigger] self.piece_mask_spec(p).has(i)
                && #[trigger] self.piece_mask_spec(q).has(i))
    }

    /// The kind of the piece on a square: the first of king, queen, rook,
    /// bishop, knight and pawn that stands there.
    pub open spec fn piece_at_spec(self, sq: Square) -> Option<Piece> {
        if self.kings.0.has(sq@) {
            Some(Piece::King)
        } else if self.queens.0.has(sq@) {
            Some(Piece::Queen)
        } else if self.rooks.0.has(sq@) {
            Some(Piece::Rook)
        } else if self.bishops.0.has(sq@) {
            Some(Piece::Bishop)
        } else if self.knights.0.has(sq@) {
            Some(Piece::Knight)
        } else if self.pawns.0.has(sq@) {
            Some(Piece::Pawn)
        } else {
            None
        }
    }

    /// What a piece that goes to a square captures there.
    pub open spec fn capture_at(self, sq: Square) -> Option<(Square, Piece)> {
        match self.piece_at_spec(sq) {
            Some(p) => Some((sq, p)),
            None => None,
        }
    }

    /// Every piece on the board as the side's sliding pieces see it: the
    /// side's own without the captured one, and those of the other side.
    pub open spec fn blocking_spec(self, opposite: Mask, cap: Option<(Square, Piece)>) -> Mask {
        match cap {
            Some((sq, _)) => Mask((self.as_mask_spec().0 & !single(sq@)) | opposite.0),
            None => Mask(self.as_mask_spec().0 | opposite.0),
        }
    }

    /// The squares that the side attacks when the other side stands on
    /// `opposite` and the side's piece `cap`, if any, is taken off the
    /// board.
    pub open spec fn threats_spec(
        self,
        color: Color,
        opposite: Mask,
        cap: Option<(Square, Piece)>,
    ) -> Mask {
        let blocking = self.blocking_spec(opposite, cap);
        Mask(
            self.kings.threats_spec().0 | self.queens.captured_spec(cap).threats_spec(blocking).0
                | self.rooks.captured_spec(cap).threats_spec(blocking).0
                | self.bishops.captured_spec(cap).threats_spec(blocking).0
                | self.knights.captured_spec(cap).threats_spec().0 | self.pawns.captured_spec(
                cap,
            ).threats_spec(color).0,
        )
    }

    /// Whether the side could ever give mate: it has a pawn, a rook or a
    /// queen, or bishops on both shades, or two knights, or a knight and a
    /// bishop.
    pub open spec fn sufficient_spec(self) -> bool {
        let light = Mask(self.bishops.0.0 & Shade::Light.as_mask_spec().0).count();
        let dark = Mask(self.bishops.0.0 & Shade::Dark.as_mask_spec().0).count();
        let knights = self.knights.0.count();
        self.pawns.0.count() > 0 || self.rooks.0.count() > 0 || self.queens.0.count() > 0 || (light
            > 0 && dark > 0) || knights >= 2 || (knights == 1 && light + dark == 1)
    }

    /// The value of the side's pieces.
    pub open spec fn materiel_spec(self) -> int {
        self.queens.0.count() * 9_000 + self.rooks.0.count() * 5_000 + self.bishops.0.count()
            * 3_333 + self.knights.0.count() * 3_250 + self.pawns.0.count() * 1_000
    }

    /// The value of a side's pieces is at most that of 64 of each kind.
    pub proof fn lemma_materiel_bounds(self)
        ensures
            0 <= self.materiel_spec() <= 64 * 21_583,
    {
        crate::masks::lemma_count_bounds(self.queens.0);
        crate::masks::lemma_count_bounds(self.rooks.0);
        crate::masks::lemma_count_bounds(self.bishops.0);
        crate::masks::lemma_count_bounds(self.knights.0);
        crate::masks::lemma_count_bounds(self.pawns.0);
    }

    /// The pieces of one color on a board.
    pub fn new(board: &BoardMap<Option<ColorPiece>>, c: Color) -> (r: HalfBitBoard)
        ensures
            forall|i: int, p: Piece|
                0 <= i < 64 ==> (#[trigger] r.piece_mask_spec(p).has(i) <==> board@[i] == Some(
                    ColorPiece::of(c, p),
                )),
    {
        HalfBitBoard {
            kings: Kings::new(board.to_mask(ColorPiece::new(c, Piece::King))),
            queens: Queens::new(board.to_mask(ColorPiece::new(c, Piece::Queen))),
            rooks: Rooks::new(board.to_mask(ColorPiece::new(c, Piece::Rook))),
            bishops: Bishops::new(board.to_mask(ColorPiece::new(c, Piece::Bishop))),
            knights: Knights::new(board.to_mask(ColorPiece::new(c, Piece::Knight))),
            pawns: Pawns::new(board.to_mask(ColorPiece::new(c, Piece::Pawn))),
        }
    }

    /// A side without pieces.
    pub fn nil() -> (r: HalfBitBoard)
        ensures
            forall|p: Piece| #[trigger] r.piece_mask_spec(p).0 == 0,
    {
        HalfBitBoard {
            kings: Kings::nil(),
            queens: Queens::nil(),
            rooks: Rooks::nil(),
            bishops: Bishops::nil(),
            knights: Knights::nil(),
            pawns: Pawns::nil(),
        }
    }

    /// What a square shows once the side's pieces are put on a board:
    /// the side's piece on it, and what the board held where there is
    /// none; where two kinds share a square, the later of king, queen,
    /// rook, bishop, knight and pawn.
    pub open spec fn shown_at(self, color: Color, i: int, under: Option<ColorPiece>) -> Option<
        ColorPiece,
    > {
        if self.pawns.0.has(i) {
            Some(ColorPiece::of(color, Piece::Pawn))
        } else if self.knights.0.has(i) {
            Some(ColorPiece::of(color, Piece::Knight))
        } else if self.bishops.0.has(i) {
            Some(ColorPiece::of(color, Piece::Bishop))
        } else if self.rooks.0.has(i) {
            Some(ColorPiece::of(color, Piece::Rook))
        } else if self.queens.0.has(i) {
            Some(ColorPiece::of(color, Piece::Queen))
        } else if self.kings.0.has(i) {
            Some(ColorPiece::of(color, Piece::King))
        } else {
            under
        }
    }

    /// Puts the side's pieces on a board: where two kinds share a square,
    /// the later of king, queen, rook, bishop, knight and pawn stays.
    pub fn render(&self, board: &mut BoardMap<Option<ColorPiece>>, color: Color)
        ensures
            forall|i: int|
                0 <= i < 64 ==> #[trigger] final(board)@[i] == self.shown_at(
                    color,
                    i,
                    old(board)@[i],
                ),
    {
        self.kings.render(board, color);
        self.queens.render(board, color);
        self.rooks.render(board, color);
        self.bishops.render(board, color);
        self.knights.render(board, color);
        self.pawns.render(board, color);
    }

    pub fn as_mask(&self) -> (r: Mask)
        ensures
            r == self.as_mask_spec(),
            forall|i: int| r.has(i) <==> exists|p: Piece| #[trigger] self.piece_mask_spec(p).has(i),
    {
        let r = self.kings.as_mask().overlay(self.queens.as_mask()).overlay(
            self.rooks.as_mask(),
        ).overlay(self.bishops.as_mask()).overlay(self.knights.as_mask()).overlay(
            self.pawns.as_mask(),
        );
        proof {
            assert forall|i: int| r.has(i) implies exists|p: Piece| #[trigger]
                self.piece_mask_spec(p).has(i) by {
                if self.kings.0.has(i) {
                    assert(self.piece_mask_spec(Piece::King).has(i));
                } else if self.queens.0.has(i) {
                    assert(self.piece_mask_spec(Piece::Queen).has(i));
                } else if self.rooks.0.has(i) {
                    assert(self.piece_mask_spec(Piece::Rook).has(i));
                } else if self.bishops.0.has(i) {
                    assert(self.piece_mask_spec(Piece::Bishop).has(i));
                } else if self.knights.0.has(i) {
                    assert(self.piece_mask_spec(Piece::Knight).has(i));
                } else {
                    assert(self.piece_mask_spec(Piece::Pawn).has(i));
                }
            }
        }
        r
    }

    pub fn piece_mask(&self, piece: Piece) -> (r: Mask)
        ensures
            r == self.piece_mask_spec(piece),
    {
        match piece {
            Piece::Pawn => self.pawns.as_mask(),
            Piece::Knight => self.knights.as_mask(),
            Piece::Bishop => self.bishops.as_mask(),
            Piece::Rook => self.rooks.as_mask(),
            Piece::Queen => self.queens.as_mask(),
            Piece::King => self.kings.as_mask(),
        }
    }

    pub fn piece_mask_mut(&mut self, piece: Piece) -> (r: &mut Mask)
        ensures
            *r == old(self).piece_mask_spec(piece),
            *final(self) == old(self).with_mask(piece, *final(r)),
    {
        match piece {
            Piece::Pawn => self.pawns.mut_mask(),
            Piece::Knight => self.knights.mut_mask(),
            Piece::Bishop => self.bishops.mut_mask(),
            Piece::Rook => self.rooks.mut_mask(),
            Piece::Queen => self.queens.mut_mask(),
            Piece::King => self.kings.mut_mask(),
        }
    }

    /// Toggles the squares of `mask` for the pieces of one kind.
    pub fn toggle(&mut self, piece: Piece, mask: Mask)
        ensures
            *final(self) == old(self).toggled(piece, mask),
    {
        match piece {
            Piece::Pawn => { self.pawns = Pawns::new(self.pawns.as_mask().differences(mask)); },
            Piece::Knight => {
                self.knights = Knights::new(self.knights.as_mask().differences(mask));
            },
            Piece::Bishop => {
                self.bishops = Bishops::new(self.bishops.as_mask().differences(mask));
            },
            Piece::Rook => { self.rooks = Rooks::new(self.rooks.as_mask().differences(mask)); },
            Piece::Queen => { self.queens = Queens::new(self.queens.as_mask().differences(mask)); },
            Piece::King => { self.kings = Kings::new(self.kings.as_mask().differences(mask)); },
        }
    }

    /// Takes whatever stands on a square off the board.
    pub fn delete(&mut self, sq: Square)
        ensures
            forall|i: int, p: Piece|
                0 <= i < 64 ==> (#[trigger] final(self).piece_mask_spec(p).has(i) <==> (old(
                    self,
                ).piece_mask_spec(p).has(i) && i != sq@)),
    {
        self.kings = Kings::new(self.kings.as_mask().unset(sq));
        self.queens = Queens::new(self.queens.as_mask().unset(sq));
        self.rooks = Rooks::new(self.rooks.as_mask().unset(sq));
        self.bishops = Bishops::new(self.bishops.as_mask().unset(sq));
        self.knights = Knights::new(self.knights.as_mask().unset(sq));
        self.pawns = Pawns::new(self.pawns.as_mask().unset(sq));
    }

    pub fn piece_at(&self, sq: Square) -> (r: Option<Piece>)
        ensures
            r == self.piece_at_spec(sq),
    {
        if self.kings.as_mask().contains(sq) {
            Some(Piece::King)
        } else if self.queens.as_mask().contains(sq) {
            Some(Piece::Queen)
        } else if self.rooks.as_mask().contains(sq) {
            Some(Piece::Rook)
        } else if self.bishops.as_mask().contains(sq) {
            Some(Piece::Bishop)
        } else if self.knights.as_mask().contains(sq) {
            Some(Piece::Knight)
        } else if self.pawns.as_mask().contains(sq) {
            Some(Piece::Pawn)
        } else {
            None
        }
    }

    /// What a piece that goes to a square captures there.
    pub fn capture(&self, sq: Square) -> (r: Option<(Square, Piece)>)
        ensures
            r == self.capture_at(sq),
    {
        match self.piece_at(sq) {
            Some(p) => Some((sq, p)),
            None => None,
        }
    }

    /// The squares that the side attacks. `color` is the side's color,
    /// `opposite` the squares of the other side, and `cap` a piece of the
    /// side that is taken to be captured: it attacks nothing and blocks
    /// nothing.
    pub fn threats(&self, color: Color, opposite: Mask, cap: Option<(Square, Piece)>) -> (r: Mask)
        ensures
            r == self.threats_spec(color, opposite, cap),
    {
        let mut blocking = self.as_mask();
        match cap {
            Some((sq, _)) => {
                blocking = blocking.unset(sq);
            },
            None => {},
        }
        blocking = blocking.overlay(opposite);
        let king = self.kings.threats();
        let queen = self.queens.captured(cap).threats(blocking);
        let rook = self.rooks.captured(cap).threats(blocking);
        let bishop = self.bishops.captured(cap).threats(blocking);
        let knight = self.knights.captured(cap).threats();
        let pawn = self.pawns.captured(cap).threats(color);
        king.overlay(queen).overlay(rook).overlay(bishop).overlay(knight).overlay(pawn)
    }

    /// Puts a piece on a square, or none, in place of what stands there.
    pub fn set_piece(&mut self, piece: Option<Piece>, sq: Square)
        ensures
            forall|i: int, p: Piece|
                0 <= i < 64 ==> (#[trigger] final(self).piece_mask_spec(p).has(i) <==> (if i
                    == sq@ {
                    piece == Some(p)
                } else {
                    old(self).piece_mask_spec(p).has(i)
                })),
    {
        self.delete(sq);
        match piece {
            Some(p) => {
                proof {
                    use_type_invariant(sq);
                }
                let ghost before = *self;
                self.toggle(p, sq.as_mask());
                proof {
                    broadcast use group_bit_facts;

                    assert forall|i: int, q: Piece| 0 <= i < 64 implies (#[trigger]
                        self.piece_mask_spec(q).has(i) <==> (if i == sq@ {
                        piece == Some(q)
                    } else {
                        old(self).piece_mask_spec(q).has(i)
                    })) by {
                        assert(before.piece_mask_spec(q).has(i) <==> (old(self).piece_mask_spec(
                            q,
                        ).has(i) && i != sq@));
                    }
                }
            },
            None => {},
        }
    }

    pub fn has_sufficient_materiel(&self) -> (r: bool)
        ensures
            r == self.sufficient_spec(),
    {
        let pawns = self.pawns.as_mask().occupied();
        let rooks = self.rooks.as_mask().occupied();
        let queens = self.queens.as_mask().occupied();
        let dark_bishops = self.bishops.as_mask().overlap(Shade::Dark.as_mask()).occupied();
        let light_bishops = self.bishops.as_mask().overlap(Shade::Light.as_mask()).occupied();
        let knights = self.knights.as_mask().occupied();
        pawns > 0 || rooks > 0 || queens > 0 || (light_bishops > 0 && dark_bishops > 0) || (knights
            >= 2) || (knights == 1 && (light_bishops + dark_bishops) == 1)
    }

    /// The value of the side's pieces in thousandths of a pawn: 9_000 for
    /// a queen, 5_000 for a rook, 3_333 for a bishop, 3_250 for a knight
    /// and 1_000 for a pawn.
    pub fn materiel(&self) -> (r: Millipawns)
        ensures
            r == self.materiel_spec(),
    {
        self.queens.materiel() + self.rooks.materiel() + self.bishops.materiel()
            + self.knights.materiel() + self.pawns.materiel()
    }
}

} // verus!
