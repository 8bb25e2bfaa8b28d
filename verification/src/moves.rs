//! Moves: the step of a piece, and the step with what it does to the
//! position.

use vstd::prelude::*;
use crate::bits::{group_bit_facts, single};
use crate::castling::{CastlingDetails, CastlingInfo, CastlingRights, CastlingSide};
use crate::enums::{Color, ColorPiece, Piece, Rank};
use crate::half::HalfBitBoard;
use crate::masks::Mask;
use crate::pieces::kings::Kings;
use crate::pieces::pawns::EnPassant;
use crate::squares::Square;

verus! {

/// A step from one square to another.
#[derive(Clone, Copy, PartialEq, Eq, Structural, Debug)]
pub struct ProtoMove {
    pub from: Square,
    pub to: Square,
}

impl ProtoMove {
    /// The set of the two squares of the step.
    pub open spec fn as_mask_spec(self) -> Mask {
        Mask(single(self.from@) | single(self.to@))
    }

    /// Whether the king of the moving side is attacked once the step is
    /// made: the other side's pieces, less the one captured, attack a
    /// square of `king` when the moving side stands on `active` with the
    /// two squares of the step toggled.
    pub open spec fn makes_king_checked_spec(
        self,
        active: Mask,
        king: Kings,
        capture: Option<(Square, Piece)>,
        passive: HalfBitBoard,
        passive_color: Color,
    ) -> bool {
        passive.threats_spec(passive_color, Mask(active.0 ^ self.as_mask_spec().0), capture).0
            & king.0.0 != 0
    }

    /// The step as text: the names of its two squares.
    pub open spec fn text(self) -> Seq<char> {
        self.from.text() + self.to.text()
    }

    /// The step as text.
    pub fn to_string(&self) -> (r: String)
        ensures
            r@ == self.text(),
    {
        let mut res = String::new();
        self.from.write(&mut res);
        self.to.write(&mut res);
        assert(res@ =~= self.text());
        res
    }

    /// The number of files plus the number of ranks that the step covers.
    pub fn dist(&self) -> (r: i8)
        ensures
            r == self.from.dist_spec(self.to),
    {
        self.from.dist(self.to)
    }

    pub fn as_mask(&self) -> (r: Mask)
        ensures
            r == self.as_mask_spec(),
            forall|i: int| r.has(i) <==> (i == self.from@ || i == self.to@),
    {
        broadcast use group_bit_facts;

        proof {
            use_type_invariant(self.from);
            use_type_invariant(self.to);
        }
        self.from.as_mask().overlay(self.to.as_mask())
    }

    /// Whether the step goes to a higher square.
    pub fn positive(&self) -> (r: bool)
        ensures
            r <==> self.from@ < self.to@,
    {
        self.from.index() < self.to.index()
    }

    pub fn makes_king_checked(
        &self,
        active: Mask,
        king: Kings,
        capture: Option<(Square, Piece)>,
        passive: &HalfBitBoard,
        passive_color: Color,
    ) -> (r: bool)
        ensures
            r == self.makes_king_checked_spec(active, king, capture, *passive, passive_color),
    {
        passive.threats(passive_color, active.differences(self.as_mask()), capture).overlap(
            king.as_mask(),
        ).any()
    }
}

/// A move: the piece, its step, and what goes with it.
#[derive(Clone, Copy, PartialEq, Eq, Debug)]
pub struct Move {
    pub color_and_piece: ColorPiece,
    pub from_to: ProtoMove,
    /// The side of a castling move; `from_to` is then the king's step.
    pub castling: Option<CastlingSide>,
    /// The square and the kind of the piece that is captured; for a
    /// capture in passing the square is not the one moved to.
    pub capture: Option<(Square, Piece)>,
    /// The kind that a pawn turns into.
    pub promotion: Option<Piece>,
    /// Nothing: it sets the move on a boundary of eight bytes, so that it
    /// fills a machine word.
    pub align: [u64; 0],
}

impl Move {
    /// A move that neither castles nor promotes.
    pub open spec fn plain(
        color_and_piece: ColorPiece,
        from: Square,
        to: Square,
        capture: Option<(Square, Piece)>,
    ) -> Move {
        Move {
            color_and_piece,
            from_to: ProtoMove { from, to },
            castling: None,
            capture,
            promotion: None,
            align: [],
        }
    }

    /// The capture in passing that the move opens: a pawn that goes from
    /// its second rank to its fourth can be captured there by a pawn that
    /// goes to the square it passed.
    pub open spec fn en_passant_square_spec(self) -> Option<EnPassant> {
        let from = self.from_to.from;
        let to = self.from_to.to;
        if self.color_and_piece == ColorPiece::WhitePawn && from@ / 8 == 1 && to@ / 8 == 3 {
            Some(
                EnPassant {
                    to: Square::at_spec(from.file_spec(), Rank::_3),
                    capture: Square::at_spec(from.file_spec(), Rank::_4),
                },
            )
        } else if self.color_and_piece == ColorPiece::BlackPawn && from@ / 8 == 6 && to@ / 8 == 4 {
            Some(
                EnPassant {
                    to: Square::at_spec(from.file_spec(), Rank::_6),
                    capture: Square::at_spec(from.file_spec(), Rank::_5),
                },
            )
        } else {
            None
        }
    }

    /// The castling rights that the move leaves to the moving side: a king
    /// move leaves none, a rook move from the square where a castling
    /// rook starts leaves only the other.
    pub open spec fn active_rights_spec(self, details: CastlingDetails) -> CastlingRights {
        let color = self.color_and_piece.color_spec();
        let piece = self.color_and_piece.piece_spec();
        let rank = color.starting_rank_spec();
        let from = self.from_to.from;
        if piece == Piece::King {
            CastlingInfo { ooo: false, oo: false }
        } else if piece == Piece::Rook {
            CastlingInfo {
                ooo: from != Square::at_spec(details.ooo.rook_move.from, rank),
                oo: from != Square::at_spec(details.oo.rook_move.from, rank),
            }
        } else {
            CastlingInfo { ooo: true, oo: true }
        }
    }

    /// The castling rights that the move leaves to the other side: the
    /// capture of a rook on the square where a castling rook of that side
    /// starts takes the right with it.
    pub open spec fn passive_rights_spec(self, details: CastlingDetails) -> CastlingRights {
        let rank = self.color_and_piece.color_spec().other_spec().starting_rank_spec();
        match self.capture {
            Some((sq, Piece::Rook)) => CastlingInfo {
                ooo: sq != Square::at_spec(details.ooo.rook_move.from, rank),
                oo: sq != Square::at_spec(details.oo.rook_move.from, rank),
            },
            _ => CastlingInfo { ooo: true, oo: true },
        }
    }

    /// The text of the capture: a cross, the figure of the captured piece
    /// and its square.
    pub open spec fn capture_text(self) -> Seq<char> {
        match self.capture {
            Some((sq, p)) => seq![
                '\u{d7}',
                ColorPiece::of(self.color_and_piece.color_spec().other_spec(), p).unicode_spec(),
            ] + sq.text(),
            None => Seq::<char>::empty(),
        }
    }

    /// The text of the promotion: a dash and the figure of the new piece.
    pub open spec fn promotion_text(self) -> Seq<char> {
        match self.promotion {
            Some(p) => seq!['-', ColorPiece::of(self.color_and_piece.color_spec(), p).unicode_spec()],
            None => Seq::<char>::empty(),
        }
    }

    /// The text of the castling: a dash and the sign of its side.
    pub open spec fn castling_text(self) -> Seq<char> {
        match self.castling {
            Some(CastlingSide::OOO) => seq!['-', 'O', '-', 'O', '-', 'O'],
            Some(CastlingSide::OO) => seq!['-', 'O', '-', 'O'],
            None => Seq::<char>::empty(),
        }
    }

    /// The move as text: the figure of the piece and its step, then the
    /// capture, the promotion and the castling, where there is one.
    pub open spec fn text(self) -> Seq<char> {
        seq![self.color_and_piece.unicode_spec()] + self.from_to.text() + self.capture_text()
            + self.promotion_text() + self.castling_text()
    }

    fn write_capture(&self, out: &mut String)
        ensures
            final(out)@ == old(out)@ + self.capture_text(),
    {
        match self.capture {
            Some((sq, p)) => {
                out.push('\u{d7}');
                out.push(ColorPiece::new(self.color_and_piece.color().other(), p).unicode());
                sq.write(out);
            },
            None => {},
        }
        assert(out@ =~= old(out)@ + self.capture_text());
    }

    fn write_promotion(&self, out: &mut String)
        ensures
            final(out)@ == old(out)@ + self.promotion_text(),
    {
        match self.promotion {
            Some(p) => {
                out.push('-');
                out.push(ColorPiece::new(self.color_and_piece.color(), p).unicode());
            },
            None => {},
        }
        assert(out@ =~= old(out)@ + self.promotion_text());
    }

    fn write_castling(&self, out: &mut String)
        ensures
            final(out)@ == old(out)@ + self.castling_text(),
    {
        match self.castling {
            Some(CastlingSide::OOO) => {
                out.push('-');
                out.push('O');
                out.push('-');
                out.push('O');
                out.push('-');
                out.push('O');
            },
            Some(CastlingSide::OO) => {
                out.push('-');
                out.push('O');
                out.push('-');
                out.push('O');
            },
            None => {},
        }
        assert(out@ =~= old(out)@ + self.castling_text());
    }

    /// The move as text.
    pub fn to_string(&self) -> (r: String)
        ensures
            r@ == self.text(),
    {
        let mut res = String::new();
        res.push(self.color_and_piece.unicode());
        self.from_to.from.write(&mut res);
        self.from_to.to.write(&mut res);
        assert(res@ =~= seq![self.color_and_piece.unicode_spec()] + self.from_to.text());
        self.write_capture(&mut res);
        self.write_promotion(&mut res);
        self.write_castling(&mut res);
        res
    }

    pub fn en_passant_square(&self) -> (r: Option<EnPassant>)
        ensures
            r == self.en_passant_square_spec(),
    {
        let (f, from_rank) = self.from_to.from.algebraic();
        let to_rank = self.from_to.to.rank();
        if self.color_and_piece == ColorPiece::WhitePawn && from_rank == Rank::_2 && to_rank
            == Rank::_4 {
            Some(EnPassant { to: Square::at(f, Rank::_3), capture: Square::at(f, Rank::_4) })
        } else if self.color_and_piece == ColorPiece::BlackPawn && from_rank == Rank::_7 && to_rank
            == Rank::_5 {
            Some(EnPassant { to: Square::at(f, Rank::_6), capture: Square::at(f, Rank::_5) })
        } else {
            None
        }
    }

    /// The castling rights that the move leaves, first to the moving side
    /// and then to the other. Rights not named here are kept.
    pub fn castling_rights(&self, details: CastlingDetails) -> (r: (CastlingRights, CastlingRights))
        ensures
            r.0 == self.active_rights_spec(details),
            r.1 == self.passive_rights_spec(details),
    {
        let (color, piece) = self.color_and_piece.split();
        let mut active = CastlingInfo { ooo: true, oo: true };
        let mut passive = CastlingInfo { ooo: true, oo: true };
        if piece == Piece::King {
            active.ooo = false;
            active.oo = false;
        } else if piece == Piece::Rook {
            if self.from_to.from == Square::at(details.ooo.rook_move.from, color.starting_rank()) {
                active.ooo = false;
            }
            if self.from_to.from == Square::at(details.oo.rook_move.from, color.starting_rank()) {
                active.oo = false;
            }
        }
        match self.capture {
            Some((sq, Piece::Rook)) => {
                let other = color.other();
                if sq == Square::at(details.ooo.rook_move.from, other.starting_rank()) {
                    passive.ooo = false;
                }
                if sq == Square::at(details.oo.rook_move.from, other.starting_rank()) {
                    passive.oo = false;
                }
            },
            _ => {},
        }
        (active, passive)
    }
}

} // verus!
