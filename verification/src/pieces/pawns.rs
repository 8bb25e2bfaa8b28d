//! Pawns.

use vstd::prelude::*;
use crate::boardmap::BoardMap;
use crate::enums::{Color, ColorPiece, Dir, Millipawns, Piece, Rank};
use crate::half::HalfBitBoard;
use crate::masks::{lemma_walk_end, lemma_walk_step, walking, Mask};
use crate::moves::{Move, ProtoMove};
use crate::pieces::kings::Kings;
use crate::pieces::{
    captured_mask, captured_of, count_value, opt_mask, opt_word, render_kind, slide_move_stop,
    slide_word,
};
use crate::squares::Square;

verus! {

/// The squares of one side's pawns.
#[derive(Clone, Copy, PartialEq, Eq, Structural, Debug)]
pub struct Pawns(pub Mask);

/// A capture in passing that is open: the square that the capturing pawn
/// goes to, and the square of the pawn that it captures.
#[derive(Clone, Copy, PartialEq, Eq, Structural, Debug)]
pub struct EnPassant {
    pub to: Square,
    pub capture: Square,
}

/// The direction in which the pawns of a color go.
pub open spec fn forward(color: Color) -> Dir {
    match color {
        Color::White => Dir::North,
        Color::Black => Dir::South,
    }
}

/// The squares that a pawn going in direction `dir` may push to on an
/// empty board: one step, and two from the second rank on its way.
pub open spec fn pawn_pushes(s: Square, dir: Dir) -> Mask {
    if (dir == Dir::North && s@ / 8 == 1) || (dir == Dir::South && s@ / 8 == 6) {
        Mask(opt_word(s.go_spec(dir)) | opt_word(s.goes_spec(seq![dir, dir])))
    } else {
        Mask(opt_word(s.go_spec(dir)))
    }
}

/// The squares that a pawn going in direction `dir` attacks.
pub open spec fn pawn_attacks(s: Square, dir: Dir) -> Mask {
    Mask(opt_word(s.goes_spec(seq![dir, Dir::East])) | opt_word(s.goes_spec(seq![dir, Dir::West])))
}

/// Adds the squares that one pawn attacks to what is attacked.
pub open spec fn pawn_threat_step(dir: Dir) -> spec_fn(u64, int) -> u64 {
    |acc: u64, s: int| acc | pawn_attacks(Square::of(s), dir).0
}

/// The rank on which the pawns of a color promote.
pub open spec fn promotion_rank_spec(color: Color) -> Rank {
    match color {
        Color::White => Rank::_8,
        Color::Black => Rank::_1,
    }
}

/// Appends a pawn's move, or on the last rank its four promotions: to
/// queen, rook, bishop and knight.
pub open spec fn promotions_onto(acc: Seq<Move>, mv: Move) -> Seq<Move> {
    if mv.from_to.to.rank_spec() == promotion_rank_spec(mv.color_and_piece.color_spec()) {
        acc.push(Move { promotion: Some(Piece::Queen), ..mv }).push(
            Move { promotion: Some(Piece::Rook), ..mv },
        ).push(Move { promotion: Some(Piece::Bishop), ..mv }).push(
            Move { promotion: Some(Piece::Knight), ..mv },
        )
    } else {
        acc.push(mv)
    }
}

/// Appends the push of a pawn to a square, unless it leaves the king
/// attacked.
pub open spec fn push_step(
    color: Color,
    from: Square,
    active_mask: Mask,
    kings: Kings,
    passive: HalfBitBoard,
) -> spec_fn(Seq<Move>, int) -> Seq<Move> {
    |acc: Seq<Move>, to: int|
        {
            let step = ProtoMove { from, to: Square::of(to) };
            if step.makes_king_checked_spec(active_mask, kings, None, passive, color.other_spec()) {
                acc
            } else {
                promotions_onto(
                    acc,
                    Move::plain(ColorPiece::of(color, Piece::Pawn), from, Square::of(to), None),
                )
            }
        }
}

/// Appends the capture by a pawn of the piece on a square, unless it
/// leaves the king attacked.
pub open spec fn capture_step(
    color: Color,
    from: Square,
    active_mask: Mask,
    kings: Kings,
    passive: HalfBitBoard,
) -> spec_fn(Seq<Move>, int) -> Seq<Move> {
    |acc: Seq<Move>, to: int|
        {
            let capture = passive.capture_at(Square::of(to));
            let step = ProtoMove { from, to: Square::of(to) };
            if capture.is_none() || step.makes_king_checked_spec(
                active_mask,
                kings,
                capture,
                passive,
                color.other_spec(),
            ) {
                acc
            } else {
                promotions_onto(
                    acc,
                    Move::plain(ColorPiece::of(color, Piece::Pawn), from, Square::of(to), capture),
                )
            }
        }
}

/// Appends the capture in passing by a pawn, if one is open to it and
/// does not leave the king attacked.
pub open spec fn en_passant_onto(
    color: Color,
    from: Square,
    active_mask: Mask,
    kings: Kings,
    passive: HalfBitBoard,
    en_passant: Option<EnPassant>,
    acc: Seq<Move>,
) -> Seq<Move> {
    match en_passant {
        None => acc,
        Some(ep) => {
            let capture = Some((ep.capture, Piece::Pawn));
            let step = ProtoMove { from, to: ep.to };
            if pawn_attacks(from, forward(color)).has(ep.to@) && !step.makes_king_checked_spec(
                active_mask,
                kings,
                capture,
                passive,
                color.other_spec(),
            ) {
                acc.push(Move::plain(ColorPiece::of(color, Piece::Pawn), from, ep.to, capture))
            } else {
                acc
            }
        },
    }
}

/// The squares that a pawn may push to: those of its pushes that no
/// piece stands on or before.
pub open spec fn push_dests(color: Color, from: Square, active_mask: Mask, passive_mask: Mask) -> Mask {
    Mask(
        slide_word(
            color == Color::White,
            pawn_pushes(from, forward(color)).0,
            active_mask.0 | passive_mask.0,
            0,
        ),
    )
}

/// The squares on which a pawn may capture: those that it attacks and
/// that the other side stands on.
pub open spec fn capture_dests(color: Color, from: Square, passive_mask: Mask) -> Mask {
    Mask(pawn_attacks(from, forward(color)).0 & passive_mask.0)
}

/// Appends the legal moves of one pawn: pushes, captures, and the capture
/// in passing.
pub open spec fn pawn_from_step(
    color: Color,
    active_mask: Mask,
    passive_mask: Mask,
    passive: HalfBitBoard,
    en_passant: Option<EnPassant>,
    kings: Kings,
) -> spec_fn(Seq<Move>, int) -> Seq<Move> {
    |acc: Seq<Move>, from: int|
        {
            let sq = Square::of(from);
            let pushed = push_dests(color, sq, active_mask, passive_mask).fold(
                64,
                acc,
                push_step(color, sq, active_mask, kings, passive),
            );
            let captured = capture_dests(color, sq, passive_mask).fold(
                64,
                pushed,
                capture_step(color, sq, active_mask, kings, passive),
            );
            en_passant_onto(color, sq, active_mask, kings, passive, en_passant, captured)
        }
}

impl Pawns {
    pub open spec fn captured_spec(self, cap: Option<(Square, Piece)>) -> Pawns {
        Pawns(captured_of(self.0, Piece::Pawn, cap))
    }

    pub open spec fn threats_spec(self, color: Color) -> Mask {
        Mask(self.0.fold(64, 0u64, pawn_threat_step(forward(color))))
    }

    /// Appends the legal moves of the pawns, in the order of their
    /// squares.
    pub open spec fn moves_onto(
        self,
        color: Color,
        active_mask: Mask,
        passive_mask: Mask,
        passive: HalfBitBoard,
        en_passant: Option<EnPassant>,
        kings: Kings,
        acc: Seq<Move>,
    ) -> Seq<Move> {
        self.0.fold(
            64,
            acc,
            pawn_from_step(color, active_mask, passive_mask, passive, en_passant, kings),
        )
    }

    pub fn nil() -> (r: Pawns)
        ensures
            r.0.0 == 0,
    {
        Pawns(Mask::nil())
    }

    pub fn new(mask: Mask) -> (r: Pawns)
        ensures
            r.0 == mask,
    {
        Pawns(mask)
    }

    /// The value of the pawns, at 1_000 apiece.
    pub fn materiel(&self) -> (r: Millipawns)
        ensures
            r == self.0.count() * 1_000,
            0 <= r <= 64 * 1_000,
    {
        count_value(self.0, 1_000)
    }

    pub fn as_mask(&self) -> (r: Mask)
        ensures
            r == self.0,
    {
        self.0
    }

    pub fn mut_mask(&mut self) -> (r: &mut Mask)
        ensures
            *r == old(self).0,
            final(self).0 == *final(r),
    {
        &mut self.0
    }

    /// The pawns that are left when the piece `cap` is captured.
    pub fn captured(&self, cap: Option<(Square, Piece)>) -> (r: Pawns)
        ensures
            r == self.captured_spec(cap),
    {
        Pawns(captured_mask(self.0, Piece::Pawn, cap))
    }

    /// Puts a pawn of the color on each of the squares.
    pub fn render(&self, board: &mut BoardMap<Option<ColorPiece>>, color: Color)
        ensures
            forall|i: int|
                0 <= i < 64 ==> final(board)@[i] == (if self.0.has(i) {
                    Some(ColorPiece::of(color, Piece::Pawn))
                } else {
                    old(board)@[i]
                }),
    {
        render_kind(self.0, board, ColorPiece::new(color, Piece::Pawn));
    }

    /// The tables of `moves_from` for every square: pushes, then attacks.
    pub fn build_move_db(dir: Dir) -> (r: (BoardMap<Mask>, BoardMap<Mask>))
        requires
            dir == Dir::North || dir == Dir::South,
        ensures
            forall|i: int| 0 <= i < 64 ==> r.0@[i] == pawn_pushes(Square::of(i), dir),
            forall|i: int| 0 <= i < 64 ==> r.1@[i] == pawn_attacks(Square::of(i), dir),
    {
        let mut moves = BoardMap::new_with(Mask::nil());
        let mut threats = BoardMap::new_with(Mask::nil());
        let mut n: i8 = 0;
        while n < 64
            invariant
                0 <= n <= 64,
                dir == Dir::North || dir == Dir::South,
                moves@.len() == 64,
                threats@.len() == 64,
                forall|i: int| 0 <= i < n ==> moves@[i] == pawn_pushes(Square::of(i), dir),
                forall|i: int| 0 <= i < n ==> threats@[i] == pawn_attacks(Square::of(i), dir),
            decreases 64 - n,
        {
            match Square::new(n) {
                None => {},
                Some(sq) => {
                    let (amove, athreat) = Pawns::moves_from(sq, dir);
                    moves.set(sq, amove);
                    threats.set(sq, athreat);
                },
            }
            n += 1;
        }
        (moves, threats)
    }

    /// The squares that a pawn on `sq` going north or south may push to on
    /// an empty board, and the squares that it attacks.
    pub fn moves_from(sq: Square, dir: Dir) -> (r: (Mask, Mask))
        requires
            dir == Dir::North || dir == Dir::South,
        ensures
            r.0 == pawn_pushes(sq, dir),
            r.1 == pawn_attacks(sq, dir),
    {
        let rank = sq.rank();
        let double = match dir {
            Dir::North => rank == Rank::_2,
            _ => rank == Rank::_7,
        };
        let moves = if double {
            opt_mask(sq.go(dir)).overlay(opt_mask(sq.goes([dir, dir])))
        } else {
            opt_mask(sq.go(dir))
        };
        let threats = opt_mask(sq.goes([dir, Dir::East])).overlay(
            opt_mask(sq.goes([dir, Dir::West])),
        );
        (moves, threats)
    }

    /// The squares that the pawns attack.
    pub fn threats(&self, color: Color) -> (r: Mask)
        ensures
            r == self.threats_spec(color),
    {
        let dir = Pawns::forward(color);
        let mut res = Mask::nil();
        let mut iter = self.0.iter();
        let ghost mut k: int = 0;
        loop
            invariant_except_break
                walking(self.0, iter.rest, k),
                dir == forward(color),
                res.0 == self.0.fold(k, 0u64, pawn_threat_step(dir)),
            ensures
                res.0 == self.0.fold(64, 0u64, pawn_threat_step(dir)),
            decreases iter.rest.0,
        {
            let ghost before = iter.rest;
            match iter.next() {
                None => {
                    proof {
                        lemma_walk_end(self.0, before, k, 0u64, pawn_threat_step(dir));
                    }
                    break ;
                },
                Some(sq) => {
                    proof {
                        lemma_walk_step(self.0, before, k, 0u64, pawn_threat_step(dir));
                        k = sq@ + 1;
                        use_type_invariant(sq);
                    }
                    res = res.overlay(Pawns::moves_from(sq, dir).1);
                },
            }
        }
        res
    }

    /// The direction in which the pawns of a color go.
    pub fn forward(color: Color) -> (r: Dir)
        ensures
            r == forward(color),
            r == Dir::North || r == Dir::South,
    {
        match color {
            Color::White => Dir::North,
            Color::Black => Dir::South,
        }
    }

    pub fn promotion_rank(color: Color) -> (r: Rank)
        ensures
            r == promotion_rank_spec(color),
    {
        match color {
            Color::White => Rank::_8,
            Color::Black => Rank::_1,
        }
    }

    /// Appends a pawn's move, or on the last rank its four promotions.
    pub fn promotions(res: &mut Vec<Move>, mv: Move)
        ensures
            final(res)@ == promotions_onto(old(res)@, mv),
    {
        if mv.from_to.to.rank() == Pawns::promotion_rank(mv.color_and_piece.color()) {
            res.push(Move { promotion: Some(Piece::Queen), ..mv });
            res.push(Move { promotion: Some(Piece::Rook), ..mv });
            res.push(Move { promotion: Some(Piece::Bishop), ..mv });
            res.push(Move { promotion: Some(Piece::Knight), ..mv });
        } else {
            res.push(mv);
        }
    }

    /// Appends the pushes of one pawn.
    fn push_moves(
        color: Color,
        from: Square,
        possible: Mask,
        active_mask: Mask,
        kings: Kings,
        passive: &HalfBitBoard,
        res: &mut Vec<Move>,
    )
        ensures
            final(res)@ == possible.fold(
                64,
                old(res)@,
                push_step(color, from, active_mask, kings, *passive),
            ),
    {
        let color_and_piece = ColorPiece::new(color, Piece::Pawn);
        let mut iter = possible.iter();
        let ghost mut k: int = 0;
        let ghost f = push_step(color, from, active_mask, kings, *passive);
        let ghost start = res@;
        loop
            invariant_except_break
                walking(possible, iter.rest, k),
                f == push_step(color, from, active_mask, kings, *passive),
                color_and_piece == ColorPiece::of(color, Piece::Pawn),
                res@ == possible.fold(k, start, f),
            ensures
                res@ == possible.fold(64, start, f),
            decreases iter.rest.0,
        {
            let ghost before = iter.rest;
            match iter.next() {
                None => {
                    proof {
                        lemma_walk_end(possible, before, k, start, f);
                    }
                    break ;
                },
                Some(to) => {
                    proof {
                        lemma_walk_step(possible, before, k, start, f);
                        k = to@ + 1;
                        use_type_invariant(to);
                    }
                    let from_to = ProtoMove { from, to };
                    if !from_to.makes_king_checked(active_mask, kings, None, passive, color.other()) {
                        Pawns::promotions(
                            res,
                            Move {
                                color_and_piece,
                                from_to,
                                castling: None,
                                capture: None,
                                promotion: None, align: [],
                            },
                        );
                    }
                },
            }
        }
    }

    /// Appends the captures of one pawn.
    fn capture_moves(
        color: Color,
        from: Square,
        possible: Mask,
        active_mask: Mask,
        kings: Kings,
        passive: &HalfBitBoard,
        res: &mut Vec<Move>,
    )
        ensures
            final(res)@ == possible.fold(
                64,
                old(res)@,
                capture_step(color, from, active_mask, kings, *passive),
            ),
    {
        let color_and_piece = ColorPiece::new(color, Piece::Pawn);
        let mut iter = possible.iter();
        let ghost mut k: int = 0;
        let ghost f = capture_step(color, from, active_mask, kings, *passive);
        let ghost start = res@;
        loop
            invariant_except_break
                walking(possible, iter.rest, k),
                f == capture_step(color, from, active_mask, kings, *passive),
                color_and_piece == ColorPiece::of(color, Piece::Pawn),
                res@ == possible.fold(k, start, f),
            ensures
                res@ == possible.fold(64, start, f),
            decreases iter.rest.0,
        {
            let ghost before = iter.rest;
            match iter.next() {
                None => {
                    proof {
                        lemma_walk_end(possible, before, k, start, f);
                    }
                    break ;
                },
                Some(to) => {
                    proof {
                        lemma_walk_step(possible, before, k, start, f);
                        k = to@ + 1;
                        use_type_invariant(to);
                    }
                    let from_to = ProtoMove { from, to };
                    let capture = passive.capture(to);
                    if capture.is_some() && !from_to.makes_king_checked(
                        active_mask,
                        kings,
                        capture,
                        passive,
                        color.other(),
                    ) {
                        Pawns::promotions(
                            res,
                            Move {
                                color_and_piece,
                                from_to,
                                castling: None,
                                capture,
                                promotion: None, align: [],
                            },
                        );
                    }
                },
            }
        }
    }

    /// Appends the legal moves of the pawns.
    pub fn enumerate_legal_moves(
        &self,
        color: Color,
        active_mask: Mask,
        passive_mask: Mask,
        passive: &HalfBitBoard,
        en_passant: Option<EnPassant>,
        kings: Kings,
        res: &mut Vec<Move>,
    )
        ensures
            final(res)@ == self.moves_onto(
                color,
                active_mask,
                passive_mask,
                *passive,
                en_passant,
                kings,
                old(res)@,
            ),
    {
        let color_and_piece = ColorPiece::new(color, Piece::Pawn);
        let dir = Pawns::forward(color);
        let mut iter = self.0.iter();
        let ghost mut k: int = 0;
        let ghost f = pawn_from_step(color, active_mask, passive_mask, *passive, en_passant, kings);
        let ghost start = res@;
        loop
            invariant_except_break
                walking(self.0, iter.rest, k),
                f == pawn_from_step(color, active_mask, passive_mask, *passive, en_passant, kings),
                color_and_piece == ColorPiece::of(color, Piece::Pawn),
                dir == forward(color),
                res@ == self.0.fold(k, start, f),
            ensures
                res@ == self.0.fold(64, start, f),
            decreases iter.rest.0,
        {
            let ghost before = iter.rest;
            match iter.next() {
                None => {
                    proof {
                        lemma_walk_end(self.0, before, k, start, f);
                    }
                    break ;
                },
                Some(from) => {
                    proof {
                        lemma_walk_step(self.0, before, k, start, f);
                        k = from@ + 1;
                        use_type_invariant(from);
                    }
                    let (pushes, attacks) = Pawns::moves_from(from, dir);
                    let possible_moves = slide_move_stop(
                        color == Color::White,
                        pushes,
                        active_mask.overlay(passive_mask),
                        Mask::nil(),
                    );
                    Pawns::push_moves(color, from, possible_moves, active_mask, kings, passive, res);
                    let possible_attacks = attacks.overlap(passive_mask);
                    Pawns::capture_moves(
                        color,
                        from,
                        possible_attacks,
                        active_mask,
                        kings,
                        passive,
                        res,
                    );
                    match en_passant {
                        None => {},
                        Some(ep) => {
                            if attacks.contains(ep.to) {
                                let from_to = ProtoMove { from, to: ep.to };
                                let capture = Some((ep.capture, Piece::Pawn));
                                if !from_to.makes_king_checked(
                                    active_mask,
                                    kings,
                                    capture,
                                    passive,
                                    color.other(),
                                ) {
                                    res.push(
                                        Move {
                                            color_and_piece,
                                            from_to,
                                            castling: None,
                                            capture,
                                            promotion: None, align: [],
                                        },
                                    );
                                }
                            }
                        },
                    }
                },
            }
        }
    }
}

} // verus!
