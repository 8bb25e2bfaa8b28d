//! Moves in algebraic notation: reading them, matching them against the
//! legal moves, and writing a move as briefly as the legal moves allow.

use vstd::prelude::*;
use crate::castling::CastlingSide;
use crate::enums::{File, Piece, Rank};
use crate::moves::Move;
use crate::squares::Square;
use crate::text::{reads, skip_any_char, skip_char};

verus! {

/// A move as written: a castling, or a piece with where it goes and as
/// much of where it comes from as is written.
#[derive(Clone, Copy, PartialEq, Eq, Debug)]
pub enum Algebraic {
    Castling(CastlingSide),
    Normal(Normal),
}

#[derive(Clone, Copy, PartialEq, Eq, Structural, Debug)]
pub struct Normal {
    pub piece: Piece,
    pub origin_rank: Option<Rank>,
    pub origin_file: Option<File>,
    pub destination: Square,
    pub promotion: Option<Piece>,
    pub capture: bool,
}

/// How many of the first `n` moves the notation matches.
pub open spec fn match_count(a: Algebraic, moves: Seq<Move>, n: int) -> nat
    decreases n,
{
    if n <= 0 {
        0
    } else {
        match_count(a, moves, n - 1) + (if a.matches_spec(moves[n - 1]) {
            1nat
        } else {
            0nat
        })
    }
}

/// A square at the front of a text: a file and a rank.
pub open spec fn square_text(s: Seq<char>) -> Option<(Square, int)> {
    if s.len() >= 2 && File::from_char_spec(s[0]).is_some() && Rank::from_char_spec(
        s[1],
    ).is_some() {
        Some(
            (
                Square::at_spec(
                    File::from_char_spec(s[0]).unwrap(),
                    Rank::from_char_spec(s[1]).unwrap(),
                ),
                2,
            ),
        )
    } else {
        None
    }
}

/// A file and an `x` at the front of a text: the start of a capture by a
/// pawn.
pub open spec fn preamble_text(s: Seq<char>) -> Option<(File, int)> {
    if s.len() >= 2 && File::from_char_spec(s[0]).is_some() && s[1] == 'x' {
        Some((File::from_char_spec(s[0]).unwrap(), 2))
    } else {
        None
    }
}

/// An `=` and a piece letter at the front of a text: a promotion.
pub open spec fn promotion_text(s: Seq<char>) -> Option<(Piece, int)> {
    if s.len() >= 2 && s[0] == '=' && Piece::from_letter_spec(s[1]).is_some() {
        Some((Piece::from_letter_spec(s[1]).unwrap(), 2))
    } else {
        None
    }
}

/// A square at the front of a text, an `x` before it or not: where a
/// piece goes, and whether it captures.
pub open spec fn destination_text(s: Seq<char>) -> Option<((bool, Square), int)> {
    let capture = s.len() > 0 && s[0] == 'x';
    let k: int = if capture {
        1
    } else {
        0
    };
    match square_text(s.skip(k)) {
        Some((sq, n)) => Some(((capture, sq), k + n)),
        None => None,
    }
}

/// A pawn move at the front of a text: the file it captures from and an
/// `x`, or neither; the square it goes to; and what it is promoted to,
/// or nothing.
pub open spec fn pawn_move_text(s: Seq<char>) -> Option<(Normal, int)> {
    let pre = preamble_text(s);
    let k: int = if pre.is_some() {
        2
    } else {
        0
    };
    match square_text(s.skip(k)) {
        None => None,
        Some((destination, _)) => {
            let promo = promotion_text(s.skip(k + 2));
            Some(
                (
                    Normal {
                        piece: Piece::Pawn,
                        origin_rank: None,
                        origin_file: match pre {
                            Some((f, _)) => Some(f),
                            None => None,
                        },
                        destination,
                        promotion: match promo {
                            Some((p, _)) => Some(p),
                            None => None,
                        },
                        capture: pre.is_some(),
                    },
                    k + 2 + (if promo.is_some() {
                        2int
                    } else {
                        0int
                    }),
                ),
            )
        },
    }
}

/// A piece move at the front of a text: the letter of a piece that is no
/// pawn; the file and the rank it comes from, as far as they are written
/// and a destination follows them; an `x` or none; and the square it goes
/// to.
pub open spec fn piece_move_text(s: Seq<char>) -> Option<(Normal, int)> {
    if s.len() == 0 || Piece::from_letter_spec(s[0]).is_none() || Piece::from_letter_spec(s[0])
        == Some(Piece::Pawn) {
        None
    } else {
        let piece = Piece::from_letter_spec(s[0]).unwrap();
        let t = s.skip(1);
        let file = if t.len() > 0 {
            File::from_char_spec(t[0])
        } else {
            None
        };
        let kf: int = if file.is_some() {
            1
        } else {
            0
        };
        let rank = if t.len() > kf {
            Rank::from_char_spec(t[kf])
        } else {
            None
        };
        let kr: int = if rank.is_some() {
            1
        } else {
            0
        };
        match destination_text(t.skip(kf + kr)) {
            Some(((capture, destination), n)) => Some(
                (
                    Normal {
                        piece,
                        origin_rank: rank,
                        origin_file: file,
                        destination,
                        promotion: None,
                        capture,
                    },
                    1 + kf + kr + n,
                ),
            ),
            None => match destination_text(t) {
                Some(((capture, destination), n)) => Some(
                    (
                        Normal {
                            piece,
                            origin_rank: None,
                            origin_file: None,
                            destination,
                            promotion: None,
                            capture,
                        },
                        1 + n,
                    ),
                ),
                None => None,
            },
        }
    }
}

/// Whether a character stands for the `O` of castling.
pub open spec fn is_o(c: char) -> bool {
    c == 'o' || c == 'O' || c == '0'
}

/// A castling at the front of a text: up to three `O`, each but the last
/// with a `-` behind it or not; two of them castle kingside, three
/// queenside.
pub open spec fn castling_text(s: Seq<char>) -> Option<(CastlingSide, int)> {
    let o1: int = if s.len() > 0 && is_o(s[0]) {
        1
    } else {
        0
    };
    let d1: int = if s.len() > o1 && s[o1] == '-' {
        1
    } else {
        0
    };
    let a = o1 + d1;
    let o2: int = if s.len() > a && is_o(s[a]) {
        1
    } else {
        0
    };
    let b = a + o2;
    let d2: int = if s.len() > b && s[b] == '-' {
        1
    } else {
        0
    };
    let c = b + d2;
    let o3: int = if s.len() > c && is_o(s[c]) {
        1
    } else {
        0
    };
    if o1 + o2 + o3 == 2 {
        Some((CastlingSide::OO, c + o3))
    } else if o1 + o2 + o3 == 3 {
        Some((CastlingSide::OOO, c + o3))
    } else {
        None
    }
}

/// A move at the front of a text: a pawn move, else a piece move, else a
/// castling.
pub open spec fn algebraic_text(s: Seq<char>) -> Option<(Algebraic, int)> {
    match pawn_move_text(s) {
        Some((n, k)) => Some((Algebraic::Normal(n), k)),
        None => match piece_move_text(s) {
            Some((n, k)) => Some((Algebraic::Normal(n), k)),
            None => match castling_text(s) {
                Some((c, k)) => Some((Algebraic::Castling(c), k)),
                None => None,
            },
        },
    }
}

impl Normal {
    /// The letter of the piece, unless it is a pawn.
    pub open spec fn piece_text(self) -> Seq<char> {
        if self.piece != Piece::Pawn {
            seq![self.piece.white_letter_spec()]
        } else {
            Seq::<char>::empty()
        }
    }

    /// What is written of the origin: its file, its rank.
    pub open spec fn origin_text(self) -> Seq<char> {
        (match self.origin_file {
            Some(f) => seq![f.char_spec()],
            None => Seq::<char>::empty(),
        }) + (match self.origin_rank {
            Some(r) => seq![r.char_spec()],
            None => Seq::<char>::empty(),
        })
    }

    /// An `x` for a capture, and the square that the piece goes to.
    pub open spec fn destination_text(self) -> Seq<char> {
        (if self.capture {
            seq!['x']
        } else {
            Seq::<char>::empty()
        }) + self.destination.text()
    }

    /// An `=` and the letter of the piece that a pawn is promoted to.
    pub open spec fn promotion_text(self) -> Seq<char> {
        match self.promotion {
            Some(p) => seq!['=', p.white_letter_spec()],
            None => Seq::<char>::empty(),
        }
    }

    /// The text of the notation: the piece, its origin, the destination,
    /// the promotion.
    pub open spec fn text(self) -> Seq<char> {
        self.piece_text() + self.origin_text() + self.destination_text() + self.promotion_text()
    }

    fn write_piece(&self, out: &mut String)
        ensures
            final(out)@ == old(out)@ + self.piece_text(),
    {
        if self.piece != Piece::Pawn {
            out.push(self.piece.white_letter());
        }
        assert(out@ =~= old(out)@ + self.piece_text());
    }

    fn write_origin(&self, out: &mut String)
        ensures
            final(out)@ == old(out)@ + self.origin_text(),
    {
        match self.origin_file {
            Some(f) => {
                out.push(f.as_char());
            },
            None => {},
        }
        match self.origin_rank {
            Some(r) => {
                out.push(r.as_char());
            },
            None => {},
        }
        assert(out@ =~= old(out)@ + self.origin_text());
    }

    fn write_destination(&self, out: &mut String)
        ensures
            final(out)@ == old(out)@ + self.destination_text(),
    {
        if self.capture {
            out.push('x');
        }
        self.destination.write(out);
        assert(out@ =~= old(out)@ + self.destination_text());
    }

    fn write_promotion(&self, out: &mut String)
        ensures
            final(out)@ == old(out)@ + self.promotion_text(),
    {
        match self.promotion {
            Some(p) => {
                out.push('=');
                out.push(p.white_letter());
            },
            None => {},
        }
        assert(out@ =~= old(out)@ + self.promotion_text());
    }

    /// The notation as text.
    pub fn to_string(&self) -> (r: String)
        ensures
            r@ == self.text(),
    {
        let mut res = String::new();
        self.write_piece(&mut res);
        assert(res@ =~= self.piece_text());
        self.write_origin(&mut res);
        self.write_destination(&mut res);
        self.write_promotion(&mut res);
        res
    }

    /// The notation with the file or the rank of the origin as given.
    pub open spec fn with_origin(self, file: Option<File>, rank: Option<Rank>) -> Normal {
        Normal { origin_file: file, origin_rank: rank, ..self }
    }
}

impl Algebraic {
    /// Whether the notation names the move: a castling names the castling
    /// of its side; otherwise the piece, the destination, the promotion
    /// and whether it captures must agree, and so must the file and the
    /// rank of the origin where they are written.
    pub open spec fn matches_spec(self, mv: Move) -> bool {
        match self {
            Algebraic::Castling(side) => mv.castling == Some(side),
            Algebraic::Normal(n) => {
                &&& mv.color_and_piece.piece_spec() == n.piece
                &&& (n.origin_file matches Some(f) ==> f == mv.from_to.from.file_spec())
                &&& (n.origin_rank matches Some(r) ==> r == mv.from_to.from.rank_spec())
                &&& n.destination == mv.from_to.to
                &&& n.promotion == mv.promotion
                &&& n.capture == mv.capture.is_some()
            },
        }
    }

    /// The notation of a move without its origin.
    pub open spec fn base(mv: Move) -> Normal {
        Normal {
            piece: mv.color_and_piece.piece_spec(),
            origin_rank: None,
            origin_file: None,
            promotion: mv.promotion,
            destination: mv.from_to.to,
            capture: mv.capture.is_some(),
        }
    }

    /// The briefest notation of a move that names at most one of the legal
    /// moves: without origin, else with the file, else with the rank, else
    /// with both.
    pub open spec fn new_spec(mv: Move, legal_moves: Seq<Move>) -> Algebraic {
        let n = legal_moves.len() as int;
        let file = Some(mv.from_to.from.file_spec());
        let rank = Some(mv.from_to.from.rank_spec());
        let base = Self::base(mv);
        match mv.castling {
            Some(side) => Algebraic::Castling(side),
            None => if match_count(Algebraic::Normal(base), legal_moves, n) <= 1 {
                Algebraic::Normal(base)
            } else if match_count(Algebraic::Normal(base.with_origin(file, None)), legal_moves, n)
                <= 1 {
                Algebraic::Normal(base.with_origin(file, None))
            } else if match_count(Algebraic::Normal(base.with_origin(None, rank)), legal_moves, n)
                <= 1 {
                Algebraic::Normal(base.with_origin(None, rank))
            } else {
                Algebraic::Normal(base.with_origin(file, rank))
            },
        }
    }

    /// The text of the notation.
    pub open spec fn text(self) -> Seq<char> {
        match self {
            Algebraic::Castling(CastlingSide::OOO) => seq!['O', '-', 'O', '-', 'O'],
            Algebraic::Castling(CastlingSide::OO) => seq!['O', '-', 'O'],
            Algebraic::Normal(n) => n.text(),
        }
    }

    /// How many of the moves the notation matches.
    pub fn count_matches(self, moves: &[Move]) -> (r: usize)
        ensures
            r == match_count(self, moves@, moves@.len() as int),
    {
        let mut n: usize = 0;
        let mut c: usize = 0;
        while n < moves.len()
            invariant
                n <= moves@.len(),
                c == match_count(self, moves@, n as int),
                c <= n,
            decreases moves@.len() - n,
        {
            if self.matches(&moves[n]) {
                c += 1;
            }
            n += 1;
        }
        c
    }

    /// The notation of a move, as brief as the legal moves allow.
    pub fn new(mv: &Move, legal_moves: &[Move]) -> (r: Algebraic)
        ensures
            r == Algebraic::new_spec(*mv, legal_moves@),
    {
        match mv.castling {
            Some(side) => {
                return Algebraic::Castling(side);
            },
            None => {},
        }
        let mut res = Normal {
            piece: mv.color_and_piece.piece(),
            origin_rank: None,
            origin_file: None,
            promotion: mv.promotion,
            destination: mv.from_to.to,
            capture: mv.capture.is_some(),
        };
        if Algebraic::Normal(res).count_matches(legal_moves) > 1 {
            res.origin_file = Some(mv.from_to.from.file());
            if Algebraic::Normal(res).count_matches(legal_moves) > 1 {
                res.origin_file = None;
                res.origin_rank = Some(mv.from_to.from.rank());
                if Algebraic::Normal(res).count_matches(legal_moves) > 1 {
                    res.origin_file = Some(mv.from_to.from.file());
                }
            }
        }
        Algebraic::Normal(res)
    }

    /// The moves that the notation names, in their order.
    pub fn find(self, mv: &[Move]) -> (r: Vec<Move>)
        ensures
            r@ == mv@.filter(|m: Move| self.matches_spec(m)),
    {
        let mut res = Vec::new();
        let mut n: usize = 0;
        let ghost pred = |m: Move| self.matches_spec(m);
        proof {
            assert(mv@.take(0).filter(pred) =~= Seq::<Move>::empty());
        }
        while n < mv.len()
            invariant
                n <= mv@.len(),
                pred == (|m: Move| self.matches_spec(m)),
                res@ == mv@.take(n as int).filter(pred),
            decreases mv@.len() - n,
        {
            proof {
                assert(mv@.take(n + 1).drop_last() == mv@.take(n as int));
                reveal(Seq::filter);
            }
            if self.matches(&mv[n]) {
                res.push(mv[n]);
            }
            n += 1;
        }
        proof {
            assert(mv@.take(mv@.len() as int) == mv@);
        }
        res
    }

    pub fn matches(self, mv: &Move) -> (r: bool)
        ensures
            r == self.matches_spec(*mv),
    {
        match self {
            Algebraic::Castling(side) => match mv.castling {
                Some(s) => s == side,
                None => false,
            },
            Algebraic::Normal(n) => {
                let from_file = mv.from_to.from.file();
                let from_rank = mv.from_to.from.rank();
                let promotion = match (n.promotion, mv.promotion) {
                    (None, None) => true,
                    (Some(a), Some(b)) => a == b,
                    _ => false,
                };
                mv.color_and_piece.piece() == n.piece && (match n.origin_file {
                    Some(f) => f == from_file,
                    None => true,
                }) && (match n.origin_rank {
                    Some(r) => r == from_rank,
                    None => true,
                }) && n.destination == mv.from_to.to && promotion && n.capture
                    == mv.capture.is_some()
            },
        }
    }

    /// Reads a move from the front of a string.
    pub fn read(s: &str) -> (r: Option<(Algebraic, &str)>)
        ensures
            reads(r, s, algebraic_text(s@)),
    {
        match Self::read_pawn_move(s) {
            Some((n, rest)) => Some((Algebraic::Normal(n), rest)),
            None => match Self::read_piece_move(s) {
                Some((n, rest)) => Some((Algebraic::Normal(n), rest)),
                None => match Self::read_castling(s) {
                    Some((c, rest)) => Some((Algebraic::Castling(c), rest)),
                    None => None,
                },
            },
        }
    }

    /// Reads a square from the front of a string.
    pub fn read_square(s: &str) -> (r: Option<(Square, &str)>)
        ensures
            reads(r, s, square_text(s@)),
    {
        Square::read(s)
    }

    pub fn read_pawn_move(s: &str) -> (r: Option<(Normal, &str)>)
        ensures
            reads(r, s, pawn_move_text(s@)),
    {
        let (origin_file, s1) = match Self::read_pawn_capture_preamble(s) {
            Some((f, rest)) => (Some(f), rest),
            None => {
                assert(s@.skip(0) == s@);
                (None, s)
            },
        };
        let (destination, s2) = match Self::read_square(s1) {
            None => { return None; },
            Some(x) => x,
        };
        let ghost k: int = if origin_file.is_some() {
            2
        } else {
            0
        };
        proof {
            assert(s@.skip(k).skip(2) == s@.skip(k + 2));
        }
        let (promotion, s3) = match Self::read_pawn_promotion(s2) {
            Some((p, rest)) => {
                proof {
                    assert(s@.skip(k + 2).skip(2) == s@.skip(k + 4));
                }
                (Some(p), rest)
            },
            None => (None, s2),
        };
        Some(
            (
                Normal {
                    piece: Piece::Pawn,
                    origin_rank: None,
                    origin_file,
                    destination,
                    promotion,
                    capture: origin_file.is_some(),
                },
                s3,
            ),
        )
    }

    pub fn read_pawn_capture_preamble(s: &str) -> (r: Option<(File, &str)>)
        ensures
            reads(r, s, preamble_text(s@)),
    {
        let (f, s1) = match File::read(s) {
            None => { return None; },
            Some(x) => x,
        };
        match skip_char('x', s1) {
            None => None,
            Some(s2) => {
                proof {
                    assert(s@.skip(1).skip(1) == s@.skip(2));
                }
                Some((f, s2))
            },
        }
    }

    pub fn read_pawn_promotion(s: &str) -> (r: Option<(Piece, &str)>)
        ensures
            reads(r, s, promotion_text(s@)),
    {
        let s1 = match skip_char('=', s) {
            None => { return None; },
            Some(x) => x,
        };
        match Piece::read(s1, false) {
            None => None,
            Some((p, s2)) => {
                proof {
                    assert(s@.skip(1).skip(1) == s@.skip(2));
                }
                Some((p, s2))
            },
        }
    }

    pub fn read_piece_move(s: &str) -> (r: Option<(Normal, &str)>)
        ensures
            reads(r, s, piece_move_text(s@)),
    {
        let (piece, checkpoint) = match Piece::read(s, false) {
            None => { return None; },
            Some(x) => x,
        };
        if piece == Piece::Pawn {
            return None;
        }
        let ghost t = s@.skip(1);
        let (origin_file, s1) = match File::read(checkpoint) {
            Some((f, rest)) => (Some(f), rest),
            None => {
                assert(t.skip(0) == t);
                (None, checkpoint)
            },
        };
        let ghost kf: int = if origin_file.is_some() {
            1
        } else {
            0
        };
        let (origin_rank, s2) = match Rank::read(s1) {
            Some((r, rest)) => {
                proof {
                    assert(t.skip(kf).skip(1) == t.skip(kf + 1));
                }
                (Some(r), rest)
            },
            None => (None, s1),
        };
        let ghost kr: int = if origin_rank.is_some() {
            1
        } else {
            0
        };
        proof {
            assert(s1@.len() > 0 ==> s1@[0] == t[kf]);
        }
        match Self::read_piece_destination(s2) {
            Some(((capture, destination), rest)) => {
                proof {
                    let n = destination_text(t.skip(kf + kr)).unwrap().1;
                    assert(t.skip(kf + kr).skip(n) == s@.skip(1 + kf + kr + n));
                }
                Some(
                    (
                        Normal {
                            piece,
                            origin_rank,
                            origin_file,
                            destination,
                            promotion: None,
                            capture,
                        },
                        rest,
                    ),
                )
            },
            None => match Self::read_piece_destination(checkpoint) {
                Some(((capture, destination), rest)) => {
                    proof {
                        let n = destination_text(t).unwrap().1;
                        assert(t.skip(n) == s@.skip(1 + n));
                    }
                    Some(
                        (
                            Normal {
                                piece,
                                origin_rank: None,
                                origin_file: None,
                                destination,
                                promotion: None,
                                capture,
                            },
                            rest,
                        ),
                    )
                },
                None => None,
            },
        }
    }

    pub fn read_castling(s: &str) -> (r: Option<(CastlingSide, &str)>)
        ensures
            reads(r, s, castling_text(s@)),
    {
        let os = ['o', 'O', '0'];
        proof {
            assert(forall|c: char| os@.contains(c) <==> is_o(c)) by {
                assert(os@[0] == 'o' && os@[1] == 'O' && os@[2] == '0');
            }
            assert(s@.skip(0) == s@);
        }
        let (o1, s1) = match skip_any_char(&os, s) {
            Some((_, rest)) => (true, rest),
            None => (false, s),
        };
        let ghost k1: int = if o1 {
            1
        } else {
            0
        };
        let s2 = match skip_char('-', s1) {
            Some(rest) => {
                proof {
                    assert(s@.skip(k1).skip(1) == s@.skip(k1 + 1));
                }
                rest
            },
            None => s1,
        };
        let ghost a: int = k1 + (if s@.len() > k1 && s@[k1] == '-' {
            1int
        } else {
            0int
        });
        assert(s2@ == s@.skip(a));
        let (o2, s3) = match skip_any_char(&os, s2) {
            Some((_, rest)) => {
                proof {
                    assert(s@.skip(a).skip(1) == s@.skip(a + 1));
                }
                (true, rest)
            },
            None => (false, s2),
        };
        let ghost b: int = a + (if o2 {
            1int
        } else {
            0int
        });
        assert(s3@ == s@.skip(b));
        let s4 = match skip_char('-', s3) {
            Some(rest) => {
                proof {
                    assert(s@.skip(b).skip(1) == s@.skip(b + 1));
                }
                rest
            },
            None => s3,
        };
        let ghost c: int = b + (if s@.len() > b && s@[b] == '-' {
            1int
        } else {
            0int
        });
        assert(s4@ == s@.skip(c));
        let (o3, s5) = match skip_any_char(&os, s4) {
            Some((_, rest)) => {
                proof {
                    assert(s@.skip(c).skip(1) == s@.skip(c + 1));
                }
                (true, rest)
            },
            None => (false, s4),
        };
        let count: u8 = (if o1 {
            1u8
        } else {
            0u8
        }) + (if o2 {
            1u8
        } else {
            0u8
        }) + (if o3 {
            1u8
        } else {
            0u8
        });
        if count == 2 {
            Some((CastlingSide::OO, s5))
        } else if count == 3 {
            Some((CastlingSide::OOO, s5))
        } else {
            None
        }
    }

    pub fn read_piece_destination(s: &str) -> (r: Option<((bool, Square), &str)>)
        ensures
            reads(r, s, destination_text(s@)),
    {
        let (capture, s1) = match skip_char('x', s) {
            Some(rest) => (true, rest),
            None => {
                assert(s@.skip(0) == s@);
                (false, s)
            },
        };
        match Square::read(s1) {
            None => None,
            Some((destination, s2)) => {
                proof {
                    let k: int = if capture {
                        1
                    } else {
                        0
                    };
                    assert(s@.skip(k).skip(2) == s@.skip(k + 2));
                }
                Some(((capture, destination), s2))
            },
        }
    }

    /// The notation as text.
    pub fn to_string(&self) -> (r: String)
        ensures
            r@ == self.text(),
    {
        match self {
            Algebraic::Castling(CastlingSide::OOO) => {
                let mut res = String::new();
                res.push('O');
                res.push('-');
                res.push('O');
                res.push('-');
                res.push('O');
                assert(res@ =~= self.text());
                res
            },
            Algebraic::Castling(CastlingSide::OO) => {
                let mut res = String::new();
                res.push('O');
                res.push('-');
                res.push('O');
                assert(res@ =~= self.text());
                res
            },
            Algebraic::Normal(n) => n.to_string(),
        }
    }

    /// The move that a string spells from its first to its last
    /// character.
    pub fn from_str(s: &str) -> (r: Result<Algebraic, ()>)
        ensures
            r.is_ok() <==> (algebraic_text(s@).is_some() && algebraic_text(s@).unwrap().1
                == s@.len()),
            r.is_ok() ==> r.unwrap() == algebraic_text(s@).unwrap().0,
    {
        match Self::read(s) {
            Some((a, rest)) => {
                if rest.unicode_len() == 0 {
                    Ok(a)
                } else {
                    Err(())
                }
            },
            None => Err(()),
        }
    }
}

} // verus!
