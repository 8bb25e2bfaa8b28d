//! A game in progress: the position with its legal moves at hand.

use vstd::prelude::*;
use crate::bits::single;
use crate::board::BitBoard;
use crate::boardmap::BoardMap;
use crate::castling::CastlingInfo;
use crate::enums::{Color, ColorPiece, GameEnd};
use crate::forced_draws::ThreefoldRule;
use crate::masks::Mask;
use crate::metadata::Metadata;
use crate::moves::Move;
use crate::notation::{match_count, Algebraic};
use crate::squares::Square;
use crate::text::{decimal, pad, padded, write_decimal};
use vstd::string::StringExecFns;

verus! {

broadcast use vstd::multiset::group_multiset_axioms;

/// Why a move given as text was not made.
#[derive(Clone, Copy, PartialEq, Eq, Structural, Debug)]
pub enum MoveError {
    /// The text is not a move in notation from its first to its last
    /// character.
    ParseFailure,
    /// The notation names none of the legal moves.
    NoSuchMove,
    /// The notation names more than one of the legal moves.
    AmbiguousMove,
}

/// A position and its legal moves.
pub struct ShessInteractor {
    pub board: BitBoard,
    pub moves: Vec<Move>,
}

/// Adds the square that a move goes to if it starts on square `sq`.
pub open spec fn reach_step(moves: Seq<Move>, sq: int, n: int) -> u64
    decreases n,
{
    if n <= 0 {
        0
    } else {
        let m = moves[n - 1];
        if m.from_to.from@ == sq {
            reach_step(moves, sq, n - 1) | single(m.from_to.to@)
        } else {
            reach_step(moves, sq, n - 1)
        }
    }
}

/// What `normal_move` says of a move that it has made: `+` for a check,
/// `#` for a mate, nothing otherwise.
pub open spec fn check_sign(board: BitBoard) -> Seq<char> {
    if board.is_in_check_spec(board.metadata.to_move) {
        if board.legal_moves().len() != 0 {
            seq!['+']
        } else {
            seq!['#']
        }
    } else {
        Seq::<char>::empty()
    }
}

/// The first lines of the metadata in words.
pub open spec fn metadata_head(metadata: Metadata) -> Seq<char> {
    let clock = if metadata.tempo >= metadata.last_change {
        (metadata.tempo - metadata.last_change) as nat
    } else {
        0nat
    };
    "Turn: "@ + decimal((metadata.tempo / 2 + 1) as nat) + " ("@ + decimal(clock) + "), "@ + (
    match metadata.to_move {
        Color::White => "White"@,
        Color::Black => "Black"@,
    }) + " to move\nWhite castling righs: "@ + (if metadata.white_castling.ooo {
        "O-O-O"@
    } else {
        "-"@
    }) + " K "@ + (if metadata.white_castling.oo {
        "O-O"@
    } else {
        "-"@
    })
}

/// The metadata in words.
pub open spec fn metadata_text(metadata: Metadata) -> Seq<char> {
    metadata_head(metadata) + "\nBlack castling rights: "@ + (if metadata.black_castling.ooo {
        "O-O-O"@
    } else {
        "-"@
    }) + " K "@ + (if metadata.black_castling.oo {
        "O-O"@
    } else {
        "-"@
    }) + "\nEn passant square: "@ + (match metadata.en_passant {
        Some(ep) => ep.to.text(),
        None => "n/a"@,
    })
}

impl ShessInteractor {
    /// The moves at hand are the legal moves of the position.
    pub open spec fn fresh(self) -> bool {
        self.moves@ == self.board.legal_moves()
    }

    /// An empty board.
    pub fn new() -> (r: Self)
        ensures
            r.board.metadata == Metadata::bare(),
            r.board.shows(Seq::new(64, |i: int| None::<ColorPiece>)),
            r.moves@.len() == 0,
    {
        ShessInteractor { board: BitBoard::empty(), moves: Vec::new() }
    }

    /// Brings the moves at hand up to date.
    pub fn recalc(&mut self)
        ensures
            final(self).board == old(self).board,
            final(self).fresh(),
    {
        self.moves.clear();
        assert(self.moves@ =~= Seq::<Move>::empty());
        self.board.generate_moves(&mut self.moves);
    }

    pub fn to_move(&self) -> (r: Color)
        ensures
            r == self.board.metadata.to_move,
    {
        self.board.metadata.to_move
    }

    /// Sets up the start of a game of standard chess.
    pub fn setup(&mut self)
        ensures
            final(self).board.metadata == Metadata::start(),
            final(self).board.shows(
                Seq::new(
                    64,
                    |i: int| crate::board::starting_square(crate::board::standard_array(), i),
                ),
            ),
            final(self).fresh(),
    {
        self.board = BitBoard::new();
        self.recalc();
    }

    /// Clears the board, the castling rights and the moves at hand.
    pub fn reset(&mut self)
        ensures
            final(self).board.metadata == Metadata::bare(),
            final(self).board.shows(Seq::new(64, |i: int| None::<ColorPiece>)),
            final(self).moves@.len() == 0,
    {
        self.board = BitBoard::empty();
        self.board.metadata.black_castling = CastlingInfo { ooo: false, oo: false };
        self.board.metadata.white_castling = CastlingInfo { ooo: false, oo: false };
        self.moves.clear();
    }

    /// Puts a piece on a square, or none, and brings the moves up to
    /// date.
    pub fn place(&mut self, p: Option<ColorPiece>, sq: Square)
        ensures
            final(self).board.metadata == old(self).board.metadata,
            forall|i: int, col: Color, k: crate::enums::Piece|
                0 <= i < 64 ==> (#[trigger] final(self).board.side(col).piece_mask_spec(k).has(i)
                    <==> (if i == sq@ {
                    p == Some(ColorPiece::of(col, k))
                } else {
                    old(self).board.side(col).piece_mask_spec(k).has(i)
                })),
            final(self).fresh(),
    {
        self.board.set_piece(p, sq);
        self.recalc();
    }

    /// The squares that the moves at hand lead to from a square.
    pub fn legal_move_mask(&self, sq: Square) -> (r: Mask)
        ensures
            r.0 == reach_step(self.moves@, sq@, self.moves@.len() as int),
    {
        let mut res = Mask::nil();
        let mut n: usize = 0;
        while n < self.moves.len()
            invariant
                n <= self.moves@.len(),
                res.0 == reach_step(self.moves@, sq@, n as int),
            decreases self.moves@.len() - n,
        {
            let m = self.moves[n];
            if m.from_to.from == sq {
                res = res.overlay(m.from_to.to.as_mask());
            }
            n += 1;
        }
        res
    }

    /// The squares that a color attacks.
    pub fn threat_mask(&self, c: Color) -> (r: Mask)
        ensures
            r == self.board.side(c).threats_spec(
                c,
                self.board.side(c.other_spec()).as_mask_spec(),
                None,
            ),
    {
        self.board.color(c).threats(c, self.board.color(c.other()).as_mask(), None)
    }

    /// Makes a move and brings the moves at hand up to date.
    pub fn apply_move(&mut self, m: Move)
        requires
            old(self).board.metadata.tempo < u16::MAX,
        ensures
            final(self).board == old(self).board.apply_spec(m),
            final(self).fresh(),
    {
        self.board.apply(m);
        self.recalc();
    }

    /// Makes the move that a notation names among the moves at hand, if
    /// it names exactly one, and says whether it gives check or mate.
    pub fn normal_move(&mut self, n: Algebraic) -> (r: Result<
        ((Algebraic, &'static str), Move),
        &'static str,
    >)
        requires
            old(self).board.metadata.tempo < u16::MAX,
        ensures
            r.is_ok() <==> match_count(n, old(self).moves@, old(self).moves@.len() as int) == 1,
            match r {
                Ok(((a, sign), mv)) => {
                    &&& a == n
                    &&& old(self).moves@.contains(mv)
                    &&& n.matches_spec(mv)
                    &&& final(self).board == old(self).board.apply_spec(mv)
                    &&& final(self).fresh()
                    &&& sign@ == check_sign(final(self).board)
                },
                Err(e) => {
                    &&& *final(self) == *old(self)
                    &&& e@ == (if match_count(n, old(self).moves@, old(self).moves@.len() as int)
                        == 0 {
                        "No such legal move"@
                    } else {
                        "Ambiguous move"@
                    })
                },
            },
    {
        let v = n.find(self.moves.as_slice());
        proof {
            lemma_filter_count(n, self.moves@, self.moves@.len() as int);
            assert(self.moves@.take(self.moves@.len() as int) == self.moves@);
        }
        if v.len() == 0 {
            return Err("No such legal move");
        } else if v.len() > 1 {
            return Err("Ambiguous move");
        }
        let mv = v[0];
        proof {
            lemma_filter_member(n, self.moves@, 0);
        }
        self.board.apply(mv);
        self.recalc();
        proof {
            reveal_strlit("+");
            reveal_strlit("#");
            reveal_strlit("");
        }
        if self.board.is_in_check(self.to_move()) {
            if self.moves.len() != 0 {
                let sign = "+";
                assert(sign@ =~= seq!['+']);
                Ok(((n, sign), mv))
            } else {
                let sign = "#";
                assert(sign@ =~= seq!['#']);
                Ok(((n, sign), mv))
            }
        } else {
            let sign = "";
            assert(sign@ =~= Seq::<char>::empty());
            Ok(((n, sign), mv))
        }
    }

    /// Makes the move that a text spells among the moves at hand, if it
    /// spells a move in notation and that names exactly one of them.
    pub fn text_move(&mut self, text: &str) -> (r: Result<Move, MoveError>)
        requires
            old(self).board.metadata.tempo < u16::MAX,
        ensures
            r.is_ok() <==> (crate::notation::algebraic_text(text@) matches Some((n, len)) && len
                == text@.len() && match_count(n, old(self).moves@, old(self).moves@.len() as int)
                == 1),
            match r {
                Ok(mv) => {
                    &&& crate::notation::algebraic_text(text@) matches Some((n, len)) && len
                        == text@.len() && n.matches_spec(mv) && match_count(
                        n,
                        old(self).moves@,
                        old(self).moves@.len() as int,
                    ) == 1
                    &&& old(self).moves@.contains(mv)
                    &&& final(self).board == old(self).board.apply_spec(mv)
                    &&& final(self).fresh()
                },
                Err(e) => {
                    &&& *final(self) == *old(self)
                    &&& e == (match crate::notation::algebraic_text(text@) {
                        Some((n, len)) => if len != text@.len() {
                            MoveError::ParseFailure
                        } else if match_count(n, old(self).moves@, old(self).moves@.len() as int)
                            == 0 {
                            MoveError::NoSuchMove
                        } else {
                            MoveError::AmbiguousMove
                        },
                        None => MoveError::ParseFailure,
                    })
                },
            },
    {
        let n = match Algebraic::from_str(text) {
            Ok(n) => n,
            Err(_) => {
                return Err(MoveError::ParseFailure);
            },
        };
        let count = n.count_matches(self.moves.as_slice());
        if count == 0 {
            return Err(MoveError::NoSuchMove);
        } else if count > 1 {
            return Err(MoveError::AmbiguousMove);
        }
        match self.normal_move(n) {
            Ok((_, mv)) => Ok(mv),
            Err(_) => Err(MoveError::NoSuchMove),
        }
    }

    /// Sets the side to move and the number of the move, and starts the
    /// clock anew.
    pub fn set_turn(&mut self, c: Color, n: usize)
        requires
            1 <= n <= 32768,
        ensures
            final(self).board.metadata.to_move == c,
            final(self).board.metadata.tempo == (n - 1) * 2 + (if c == Color::Black {
                1int
            } else {
                0int
            }),
            final(self).board.metadata.last_change == final(self).board.metadata.tempo,
            final(self).board.white == old(self).board.white,
            final(self).board.black == old(self).board.black,
            final(self).fresh(),
    {
        self.board.metadata.to_move = c;
        self.board.metadata.tempo = ((n - 1) * 2 + (if c == Color::Black {
            1
        } else {
            0
        })) as u16;
        self.board.metadata.last_change = self.board.metadata.tempo;
        self.recalc();
    }

    /// The metadata in words: the number of the move, the clock of moves
    /// without capture or pawn move, the side to move, the castling
    /// rights of both sides, and the square of the capture in passing.
    pub fn printable_metadata(&self) -> (r: String)
        ensures
            r@ == metadata_text(self.board.metadata),
    {
        let metadata = &self.board.metadata;
        let clock = if metadata.tempo >= metadata.last_change {
            metadata.tempo - metadata.last_change
        } else {
            0
        };
        let mut res = String::new();
        res.append("Turn: ");
        write_decimal(metadata.turn() as u64, &mut res);
        res.append(" (");
        write_decimal(clock as u64, &mut res);
        res.append("), ");
        res.append(
            match metadata.to_move {
                Color::White => "White",
                Color::Black => "Black",
            },
        );
        res.append(" to move\nWhite castling righs: ");
        res.append(
            if metadata.white_castling.ooo {
                "O-O-O"
            } else {
                "-"
            },
        );
        res.append(" K ");
        res.append(
            if metadata.white_castling.oo {
                "O-O"
            } else {
                "-"
            },
        );
        assert(res@ =~= metadata_head(self.board.metadata));
        res.append("\nBlack castling rights: ");
        res.append(
            if metadata.black_castling.ooo {
                "O-O-O"
            } else {
                "-"
            },
        );
        res.append(" K ");
        res.append(
            if metadata.black_castling.oo {
                "O-O"
            } else {
                "-"
            },
        );
        res.append("\nEn passant square: ");
        match metadata.en_passant {
            Some(ep) => {
                ep.to.write(&mut res);
            },
            None => {
                res.append("n/a");
            },
        }
        assert(res@ =~= metadata_text(self.board.metadata));
        res
    }

    /// The moves at hand as texts, each filled up to twelve characters.
    pub fn printable_moves(&self) -> (r: Vec<String>)
        ensures
            r@.len() == self.moves@.len(),
            forall|i: int| 0 <= i < r@.len() ==> r@[i]@ == padded(self.moves@[i].text(), 12),
    {
        let mut res: Vec<String> = Vec::new();
        let mut n: usize = 0;
        while n < self.moves.len()
            invariant
                n <= self.moves@.len(),
                res@.len() == n,
                forall|i: int| 0 <= i < n ==> res@[i]@ == padded(self.moves@[i].text(), 12),
            decreases self.moves@.len() - n,
        {
            res.push(pad(self.moves[n].to_string(), 12));
            n += 1;
        }
        res
    }

    /// How the game stands, the positions seen before left aside.
    pub fn victory(&self) -> (r: Option<GameEnd>)
        ensures
            r == GameEnd::determine_spec(self.board, self.moves@, 0),
    {
        let seen = ThreefoldRule::empty();
        GameEnd::determine(&self.board, self.moves.as_slice(), 0, &seen)
    }

    /// The pieces on a board.
    pub fn as_boardmap(&self) -> (r: BoardMap<Option<ColorPiece>>)
        ensures
            forall|i: int| 0 <= i < 64 ==> #[trigger] r@[i] == self.board.shown_at(i, None),
    {
        let mut res = BoardMap::new_with(None);
        self.board.render(&mut res);
        res
    }
}

/// A move that a notation names among some moves is one of them, and
/// one that it matches.
pub proof fn lemma_filter_member(a: Algebraic, moves: Seq<Move>, i: int)
    requires
        0 <= i < moves.filter(|m: Move| a.matches_spec(m)).len(),
    ensures
        moves.contains(moves.filter(|m: Move| a.matches_spec(m))[i]),
        a.matches_spec(moves.filter(|m: Move| a.matches_spec(m))[i]),
    decreases moves.len(),
{
    reveal(Seq::filter);
    let pred = |m: Move| a.matches_spec(m);
    let f = moves.filter(pred);
    if moves.len() > 0 {
        let rest = moves.drop_last().filter(pred);
        if i < rest.len() {
            lemma_filter_member(a, moves.drop_last(), i);
            let x = rest[i];
            let j = choose|j: int| 0 <= j < moves.drop_last().len() && moves.drop_last()[j] == x;
            assert(moves[j] == x);
        } else {
            assert(f[i] == moves.last());
            assert(moves[moves.len() - 1] == moves.last());
        }
    }
}

/// The moves that a notation names are as many as it matches.
pub proof fn lemma_filter_count(a: Algebraic, moves: Seq<Move>, n: int)
    requires
        0 <= n <= moves.len(),
    ensures
        moves.take(n).filter(|m: Move| a.matches_spec(m)).len() == match_count(a, moves, n),
    decreases n,
{
    reveal(Seq::filter);
    let pred = |m: Move| a.matches_spec(m);
    if n > 0 {
        lemma_filter_count(a, moves, n - 1);
        assert(moves.take(n).drop_last() == moves.take(n - 1));
        assert(match_count(a, moves, n) == match_count(a, moves, n - 1) + (if a.matches_spec(
            moves[n - 1],
        ) {
            1nat
        } else {
            0nat
        }));
    } else {
        assert(moves.take(0).filter(pred) =~= Seq::<Move>::empty());
    }
}

} // verus!
