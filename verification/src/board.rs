//! The position: both sides' pieces and the metadata, with the moves that
//! can be made in it and what a move makes of it.

use vstd::prelude::*;
use crate::boardmap::BoardMap;
use crate::castling::CastlingSide;
use crate::enums::{Color, ColorPiece, Piece};
use crate::half::HalfBitBoard;
use crate::masks::Mask;
use crate::metadata::Metadata;
use crate::moves::Move;
use crate::pieces::plain_moves_onto;
use crate::squares::Square;

verus! {

/// A position.
#[derive(Clone, Copy, PartialEq, Eq, Debug)]
pub struct BitBoard {
    pub metadata: Metadata,
    pub white: HalfBitBoard,
    pub black: HalfBitBoard,
}

/// The back rank of standard chess, from the a-file.
pub open spec fn standard_array() -> Seq<Piece> {
    seq![
        Piece::Rook,
        Piece::Knight,
        Piece::Bishop,
        Piece::Queen,
        Piece::King,
        Piece::Bishop,
        Piece::Knight,
        Piece::Rook,
    ]
}

/// What stands on a square at the start of a game with the back rank
/// `arr`: the back ranks on ranks 1 and 8, pawns on ranks 2 and 7.
pub open spec fn starting_square(arr: Seq<Piece>, i: int) -> Option<ColorPiece> {
    if 0 <= i < 8 {
        Some(ColorPiece::of(Color::White, arr[i]))
    } else if 8 <= i < 16 {
        Some(ColorPiece::WhitePawn)
    } else if 48 <= i < 56 {
        Some(ColorPiece::BlackPawn)
    } else if 56 <= i < 64 {
        Some(ColorPiece::of(Color::Black, arr[i - 56]))
    } else {
        None
    }
}

impl BitBoard {
    /// The pieces of a color.
    pub open spec fn side(self, color: Color) -> HalfBitBoard {
        match color {
            Color::White => self.white,
            Color::Black => self.black,
        }
    }

    /// The position with other pieces for the side of `color` and for the
    /// other side.
    pub open spec fn with_sides(self, color: Color, own: HalfBitBoard, other: HalfBitBoard) -> BitBoard {
        match color {
            Color::White => BitBoard { white: own, black: other, ..self },
            Color::Black => BitBoard { black: own, white: other, ..self },
        }
    }

    /// The position holds on each square what the board holds there.
    pub open spec fn shows(self, board: Seq<Option<ColorPiece>>) -> bool {
        forall|i: int, c: Color, p: Piece|
            0 <= i < 64 ==> (#[trigger] self.side(c).piece_mask_spec(p).has(i) <==> board[i]
                == Some(ColorPiece::of(c, p)))
    }

    /// Whether a king of color `c` is attacked by the other side.
    pub open spec fn is_in_check_spec(self, c: Color) -> bool {
        self.side(c).kings.0.0 & self.side(c.other_spec()).threats_spec(
            c.other_spec(),
            self.side(c).as_mask_spec(),
            None,
        ).0 != 0
    }

    /// The metadata after a move: the other side is to move, the tempo
    /// has gone up, a capture or a pawn move has reset the clock, a double
    /// push has opened a capture in passing, and castling rights are lost
    /// as the move takes them.
    pub open spec fn metadata_after(self, mv: Move) -> Metadata {
        let color = mv.color_and_piece.color_spec();
        let tempo = (self.metadata.tempo + 1) as u16;
        let own = self.metadata.rights_of(color).update_spec(
            mv.active_rights_spec(self.metadata.castling_details),
        );
        let other = self.metadata.rights_of(color.other_spec()).update_spec(
            mv.passive_rights_spec(self.metadata.castling_details),
        );
        Metadata {
            to_move: color.other_spec(),
            tempo,
            last_change: if mv.color_and_piece.piece_spec() == Piece::Pawn
                || mv.capture.is_some() {
                tempo
            } else {
                self.metadata.last_change
            },
            white_castling: if color == Color::White {
                own
            } else {
                other
            },
            black_castling: if color == Color::White {
                other
            } else {
                own
            },
            castling_details: self.metadata.castling_details,
            en_passant: mv.en_passant_square_spec(),
        }
    }

    /// The pieces of the moving side after a move: the piece has left its
    /// square and stands on the other, as what it is promoted to if it is;
    /// in castling the rook has made its step too.
    pub open spec fn active_after(self, mv: Move) -> HalfBitBoard {
        let color = mv.color_and_piece.color_spec();
        let active = self.side(color);
        let moved = match mv.promotion {
            Some(p) => active.toggled(Piece::Pawn, mv.from_to.from.as_mask_spec()).toggled(
                p,
                mv.from_to.to.as_mask_spec(),
            ),
            None => active.toggled(mv.color_and_piece.piece_spec(), mv.from_to.as_mask_spec()),
        };
        match mv.castling {
            Some(side) => {
                let detail = match side {
                    CastlingSide::OOO => self.metadata.castling_details.ooo,
                    CastlingSide::OO => self.metadata.castling_details.oo,
                };
                moved.toggled(
                    Piece::Rook,
                    detail.rook_move.as_move_spec(color.starting_rank_spec()).as_mask_spec(),
                )
            },
            None => moved,
        }
    }

    /// The pieces of the other side after a move: without the captured
    /// piece.
    pub open spec fn passive_after(self, mv: Move) -> HalfBitBoard {
        let passive = self.side(mv.color_and_piece.color_spec().other_spec());
        match mv.capture {
            Some((sq, p)) => passive.toggled(p, sq.as_mask_spec()),
            None => passive,
        }
    }

    /// The position after a move.
    pub open spec fn apply_spec(self, mv: Move) -> BitBoard {
        BitBoard { metadata: self.metadata_after(mv), ..self }.with_sides(
            mv.color_and_piece.color_spec(),
            self.active_after(mv),
            self.passive_after(mv),
        )
    }

    /// Appends the legal moves of the side to move: those of the queens,
    /// the rooks, the bishops, the knights, the pawns and the kings.
    pub open spec fn moves_onto(self, acc: Seq<Move>) -> Seq<Move> {
        let color = self.metadata.to_move;
        let active = self.side(color);
        let passive = self.side(color.other_spec());
        let a = active.as_mask_spec();
        let p = passive.as_mask_spec();
        let kings = active.kings;
        let queens = plain_moves_onto(Piece::Queen, active.queens.0, color, a, p, passive, kings, acc);
        let rooks = plain_moves_onto(Piece::Rook, active.rooks.0, color, a, p, passive, kings, queens);
        let bishops = plain_moves_onto(
            Piece::Bishop,
            active.bishops.0,
            color,
            a,
            p,
            passive,
            kings,
            rooks,
        );
        let knights = plain_moves_onto(
            Piece::Knight,
            active.knights.0,
            color,
            a,
            Mask(0),
            passive,
            kings,
            bishops,
        );
        let pawns = active.pawns.moves_onto(
            color,
            a,
            p,
            passive,
            self.metadata.en_passant,
            kings,
            knights,
        );
        kings.moves_onto(
            color,
            a,
            p,
            passive,
            self.metadata.rights_of(color),
            self.metadata.castling_details,
            pawns,
        )
    }

    /// The legal moves of the side to move.
    pub open spec fn legal_moves(self) -> Seq<Move> {
        self.moves_onto(Seq::empty())
    }

    /// The position at the start of a game of standard chess.
    pub fn new() -> (r: BitBoard)
        ensures
            r.metadata == Metadata::start(),
            r.shows(Seq::new(64, |i: int| starting_square(standard_array(), i))),
            r.valid(),
    {
        let arr = [
            Piece::Rook,
            Piece::Knight,
            Piece::Bishop,
            Piece::Queen,
            Piece::King,
            Piece::Bishop,
            Piece::Knight,
            Piece::Rook,
        ];
        proof {
            assert(arr@ =~= standard_array());
        }
        let r = BitBoard::new_starting_array(arr, Metadata::new());
        proof {
            r.lemma_start_valid();
        }
        r
    }

    /// The position without pieces or castling rights.
    pub fn empty() -> (r: BitBoard)
        ensures
            r.metadata == Metadata::bare(),
            r.shows(Seq::new(64, |i: int| None::<ColorPiece>)),
    {
        BitBoard::new_board(&BoardMap::new_with(None), Metadata::empty())
    }

    /// The position at the start of a game with the back rank `arr`.
    pub fn new_starting_array(arr: [Piece; 8], metadata: Metadata) -> (r: BitBoard)
        ensures
            r.metadata == metadata,
            r.shows(Seq::new(64, |i: int| starting_square(arr@, i))),
    {
        let mut board: BoardMap<Option<ColorPiece>> = BoardMap::new_with(None);
        let mut n: i8 = 0;
        while n < 8
            invariant
                0 <= n <= 8,
                board@.len() == 64,
                forall|i: int|
                    0 <= i < 64 ==> board@[i] == (if i % 8 < n {
                        starting_square(arr@, i)
                    } else {
                        None
                    }),
            decreases 8 - n,
        {
            let p = arr[n as usize];
            match (Square::new(n), Square::new(n + 8), Square::new(n + 48), Square::new(n + 56)) {
                (Some(a), Some(b), Some(c), Some(d)) => {
                    board.set(a, Some(ColorPiece::new(Color::White, p)));
                    board.set(b, Some(ColorPiece::WhitePawn));
                    board.set(c, Some(ColorPiece::BlackPawn));
                    board.set(d, Some(ColorPiece::new(Color::Black, p)));
                },
                _ => {},
            }
            n += 1;
        }
        proof {
            assert(board@ =~= Seq::new(64, |i: int| starting_square(arr@, i)));
        }
        BitBoard::new_board(&board, metadata)
    }

    /// The position that a board and the metadata make.
    pub fn new_board(board: &BoardMap<Option<ColorPiece>>, metadata: Metadata) -> (r: BitBoard)
        ensures
            r.metadata == metadata,
            r.shows(board@),
    {
        let r = BitBoard {
            metadata,
            white: HalfBitBoard::new(board, Color::White),
            black: HalfBitBoard::new(board, Color::Black),
        };
        r
    }

    /// What a square shows once the pieces are put on a board: Black's
    /// piece on it, else White's, else what the board held.
    pub open spec fn shown_at(self, i: int, under: Option<ColorPiece>) -> Option<ColorPiece> {
        self.black.shown_at(Color::Black, i, self.white.shown_at(Color::White, i, under))
    }

    /// Puts the pieces on a board, White's first, then Black's.
    pub fn render(&self, board: &mut BoardMap<Option<ColorPiece>>)
        ensures
            forall|i: int|
                0 <= i < 64 ==> #[trigger] final(board)@[i] == self.shown_at(i, old(board)@[i]),
    {
        self.white.render(board, Color::White);
        self.black.render(board, Color::Black);
    }

    /// The squares that hold a piece.
    pub fn as_mask(&self) -> (r: Mask)
        ensures
            r.0 == self.white.as_mask_spec().0 | self.black.as_mask_spec().0,
    {
        self.white.as_mask().overlay(self.black.as_mask())
    }

    pub fn color(&self, color: Color) -> (r: &HalfBitBoard)
        ensures
            *r == self.side(color),
    {
        match color {
            Color::White => &self.white,
            Color::Black => &self.black,
        }
    }

    /// The pieces of a color, then those of the other color, to be changed
    /// in place.
    pub fn color_mut(&mut self, color: Color) -> (r: (&mut HalfBitBoard, &mut HalfBitBoard))
        ensures
            *r.0 == old(self).side(color),
            *r.1 == old(self).side(color.other_spec()),
            *final(self) == old(self).with_sides(color, *final(r.0), *final(r.1)),
    {
        match color {
            Color::White => (&mut self.white, &mut self.black),
            Color::Black => (&mut self.black, &mut self.white),
        }
    }

    /// Puts a piece on a square, or none, in place of what stands there.
    pub fn set_piece(&mut self, c: Option<ColorPiece>, sq: Square)
        ensures
            final(self).metadata == old(self).metadata,
            forall|i: int, col: Color, p: Piece|
                0 <= i < 64 ==> (#[trigger] final(self).side(col).piece_mask_spec(p).has(i) <==> (
                if i == sq@ {
                    c == Some(ColorPiece::of(col, p))
                } else {
                    old(self).side(col).piece_mask_spec(p).has(i)
                })),
    {
        match c {
            Some(cp) => {
                let (col, piece) = cp.split();
                match col {
                    Color::White => {
                        self.white.set_piece(Some(piece), sq);
                        self.black.set_piece(None, sq);
                    },
                    Color::Black => {
                        self.black.set_piece(Some(piece), sq);
                        self.white.set_piece(None, sq);
                    },
                }
            },
            None => {
                self.white.set_piece(None, sq);
                self.black.set_piece(None, sq);
            },
        }
    }

    /// Puts on every square what the board holds there.
    pub fn overwrite(&mut self, board: &BoardMap<Option<ColorPiece>>)
        ensures
            final(self).metadata == old(self).metadata,
            final(self).shows(board@),
    {
        let mut n: i8 = 0;
        while n < 64
            invariant
                0 <= n <= 64,
                self.metadata == old(self).metadata,
                forall|i: int, c: Color, p: Piece|
                    0 <= i < n ==> (#[trigger] self.side(c).piece_mask_spec(p).has(i) <==> board@[i]
                        == Some(ColorPiece::of(c, p))),
            decreases 64 - n,
        {
            match Square::new(n) {
                None => {},
                Some(sq) => {
                    self.set_piece(board.at(sq), sq);
                },
            }
            n += 1;
        }
    }

    /// The pieces of the side to move.
    pub fn active(&self) -> (r: &HalfBitBoard)
        ensures
            *r == self.side(self.metadata.to_move),
    {
        self.color(self.metadata.to_move)
    }

    /// The pieces of the side that is not to move.
    pub fn passive(&self) -> (r: &HalfBitBoard)
        ensures
            *r == self.side(self.metadata.to_move.other_spec()),
    {
        match self.metadata.to_move {
            Color::White => &self.black,
            Color::Black => &self.white,
        }
    }

    /// Whether a king of color `c` is attacked.
    pub fn is_in_check(&self, c: Color) -> (r: bool)
        ensures
            r == self.is_in_check_spec(c),
    {
        self.color(c).kings.as_mask().overlap(
            self.color(c.other()).threats(c.other(), self.color(c).as_mask(), None),
        ).any()
    }

    /// Whether either side could ever give mate.
    pub fn sufficient_checkmating_materiel(&self) -> (r: bool)
        ensures
            r == (self.white.sufficient_spec() || self.black.sufficient_spec()),
    {
        self.white.has_sufficient_materiel() || self.black.has_sufficient_materiel()
    }

    /// Makes a move. A legal move of a position as it arises in play
    /// makes another such position.
    pub fn apply(&mut self, mv: Move)
        requires
            old(self).metadata.tempo < u16::MAX,
        ensures
            *final(self) == old(self).apply_spec(mv),
            old(self).valid() && old(self).legal_moves().contains(mv) ==> final(self).valid(),
    {
        proof {
            if self.valid() && self.legal_moves().contains(mv) {
                self.lemma_apply_keeps_valid(mv);
            }
        }
        let (color, piece) = mv.color_and_piece.split();
        let details = self.metadata.castling_details;
        let (cr_active, cr_passive) = mv.castling_rights(details);
        self.metadata.to_move = color.other();
        self.metadata.tempo += 1;
        if piece == Piece::Pawn || mv.capture.is_some() {
            self.metadata.last_change = self.metadata.tempo;
        }
        self.metadata.en_passant = mv.en_passant_square();
        {
            let (active_castling, passive_castling) = self.metadata.castling_rights_mut(color);
            active_castling.update(cr_active);
            passive_castling.update(cr_passive);
        }
        let (active, passive) = self.color_mut(color);
        match mv.capture {
            Some((sq, p)) => {
                passive.toggle(p, sq.as_mask());
            },
            None => {},
        }
        match mv.promotion {
            Some(p) => {
                active.toggle(Piece::Pawn, mv.from_to.from.as_mask());
                active.toggle(p, mv.from_to.to.as_mask());
            },
            None => {
                active.toggle(piece, mv.from_to.as_mask());
            },
        }
        match mv.castling {
            Some(side) => {
                let rook = details.select(side).rook_move.as_move(color.starting_rank());
                active.toggle(Piece::Rook, rook.as_mask());
            },
            None => {},
        }
    }

    /// Appends the legal moves of the side to move.
    pub fn generate_moves(&self, res: &mut Vec<Move>)
        ensures
            final(res)@ == self.moves_onto(old(res)@),
            old(res)@.len() == 0 ==> final(res)@ == self.legal_moves(),
    {
        proof {
            if res@.len() == 0 {
                assert(res@ =~= Seq::<Move>::empty());
            }
        }
        let active_mask = self.active().as_mask();
        let passive_mask = self.passive().as_mask();
        let color = self.metadata.to_move;
        self.active().queens.enumerate_legal_moves(
            color,
            active_mask,
            self.passive(),
            passive_mask,
            self.active().kings,
            res,
        );
        self.active().rooks.enumerate_legal_moves(
            color,
            active_mask,
            self.passive(),
            passive_mask,
            self.active().kings,
            res,
        );
        self.active().bishops.enumerate_legal_moves(
            color,
            active_mask,
            self.passive(),
            passive_mask,
            self.active().kings,
            res,
        );
        self.active().knights.enumerate_legal_moves(
            color,
            active_mask,
            self.passive(),
            self.active().kings,
            res,
        );
        self.active().pawns.enumerate_legal_moves(
            color,
            active_mask,
            passive_mask,
            self.passive(),
            self.metadata.en_passant,
            self.active().kings,
            res,
        );
        self.active().kings.enumerate_legal_moves(
            color,
            active_mask,
            passive_mask,
            self.passive(),
            self.metadata.castling_rights(color).0,
            self.metadata.castling_details,
            res,
        );
    }
}

} // verus!
