//! What it is for a piece to attack a square, and that the attacked
//! squares which the engine computes are those.

use vstd::prelude::*;
use crate::bits::{bit, group_bit_facts};
use crate::enums::{Color, Dir, Piece};
use crate::half::HalfBitBoard;
use crate::masks::{lemma_fold_or_has, Mask};
use crate::pieces::kings::{king_moves, king_threat_step};
use crate::pieces::knights::{knight_moves, knight_threat_step};
use crate::pieces::pawns::{forward, pawn_attacks, pawn_threat_step};
use crate::pieces::{
    captured_of, diagonal_threats, directional_threats_spec, lemma_slide_word, ray, slide_reach,
    slide_threat_step, slide_word, straight_threats,
};
use crate::squares::Square;

verus! {

/// Whether a sliding piece on `s` sees the square `t` in one direction:
/// `t` is on the ray, and no piece stands between.
pub open spec fn sees(s: Square, dir: Dir, blocking: Mask, t: int) -> bool {
    slide_reach(dir.ascends(), ray(s, dir), Mask(0), blocking, t)
}

/// Whether a rook on `s` sees the square `t`.
pub open spec fn sees_straight(s: Square, blocking: Mask, t: int) -> bool {
    sees(s, Dir::North, blocking, t) || sees(s, Dir::East, blocking, t) || sees(
        s,
        Dir::South,
        blocking,
        t,
    ) || sees(s, Dir::West, blocking, t)
}

/// Whether a bishop on `s` sees the square `t`.
pub open spec fn sees_diagonal(s: Square, blocking: Mask, t: int) -> bool {
    sees(s, Dir::NorthWest, blocking, t) || sees(s, Dir::NorthEast, blocking, t) || sees(
        s,
        Dir::SouthEast,
        blocking,
        t,
    ) || sees(s, Dir::SouthWest, blocking, t)
}

/// Whether a piece of a kind and a color on `s` attacks the square `t`
/// when the pieces of the board stand on `blocking`: a king the squares
/// next to it, a knight those a jump away, a pawn the two before it to
/// its sides, and a rook, a bishop or a queen what it sees.
pub open spec fn attacks(kind: Piece, color: Color, s: Square, blocking: Mask, t: int) -> bool {
    match kind {
        Piece::King => king_moves(s).has(t),
        Piece::Knight => knight_moves(s).has(t),
        Piece::Pawn => pawn_attacks(s, forward(color)).has(t),
        Piece::Rook => sees_straight(s, blocking, t),
        Piece::Bishop => sees_diagonal(s, blocking, t),
        Piece::Queen => sees_diagonal(s, blocking, t) || sees_straight(s, blocking, t),
    }
}

/// The squares that sliding pieces attack in one direction are those
/// that one of them sees.
pub proof fn lemma_directional_has(pieces: Mask, dir: Dir, blockers: Mask, t: int)
    requires
        0 <= t < 64,
    ensures
        directional_threats_spec(pieces, dir, blockers).has(t) <==> exists|s: int|
            0 <= s < 64 && pieces.has(s) && #[trigger] sees(Square::of(s), dir, blockers, t),
{
    let f = slide_threat_step(dir, blockers);
    let g = |s: int| slide_word(dir.ascends(), ray(Square::of(s), dir).0, 0, blockers.0);
    lemma_fold_or_has(pieces, 64, f, g, t);
    assert forall|s: int| 0 <= s < 64 implies (bit(g(s), t) <==> #[trigger] sees(
        Square::of(s),
        dir,
        blockers,
        t,
    )) by {
        lemma_slide_word(dir.ascends(), ray(Square::of(s), dir), Mask(0), blockers, t);
    }
    if directional_threats_spec(pieces, dir, blockers).has(t) {
        let s = choose|s: int| 0 <= s < 64 && pieces.has(s) && bit(g(s), t);
        assert(sees(Square::of(s), dir, blockers, t));
    }
    if exists|s: int|
        0 <= s < 64 && pieces.has(s) && #[trigger] sees(Square::of(s), dir, blockers, t) {
        let s = choose|s: int|
            0 <= s < 64 && pieces.has(s) && #[trigger] sees(Square::of(s), dir, blockers, t);
        assert(0 <= s < 64 && pieces.has(s) && bit(g(s), t));
    }
}

/// The squares that rooks attack are those that one of them sees.
pub proof fn lemma_straight_has(pieces: Mask, blockers: Mask, t: int)
    requires
        0 <= t < 64,
    ensures
        straight_threats(pieces, blockers).has(t) <==> exists|s: int|
            0 <= s < 64 && pieces.has(s) && #[trigger] sees_straight(Square::of(s), blockers, t),
{
    broadcast use group_bit_facts;

    lemma_directional_has(pieces, Dir::North, blockers, t);
    lemma_directional_has(pieces, Dir::East, blockers, t);
    lemma_directional_has(pieces, Dir::South, blockers, t);
    lemma_directional_has(pieces, Dir::West, blockers, t);
    if straight_threats(pieces, blockers).has(t) {
        let dir = if directional_threats_spec(pieces, Dir::North, blockers).has(t) {
            Dir::North
        } else if directional_threats_spec(pieces, Dir::East, blockers).has(t) {
            Dir::East
        } else if directional_threats_spec(pieces, Dir::South, blockers).has(t) {
            Dir::South
        } else {
            Dir::West
        };
        let s = choose|s: int|
            0 <= s < 64 && pieces.has(s) && #[trigger] sees(Square::of(s), dir, blockers, t);
        assert(sees_straight(Square::of(s), blockers, t));
    }
    if exists|s: int|
        0 <= s < 64 && pieces.has(s) && #[trigger] sees_straight(Square::of(s), blockers, t) {
        let s = choose|s: int|
            0 <= s < 64 && pieces.has(s) && #[trigger] sees_straight(Square::of(s), blockers, t);
        let sq = Square::of(s);
        if sees(sq, Dir::North, blockers, t) {
        } else if sees(sq, Dir::East, blockers, t) {
        } else if sees(sq, Dir::South, blockers, t) {
        } else {
            assert(sees(sq, Dir::West, blockers, t));
        }
    }
}

/// The squares that bishops attack are those that one of them sees.
pub proof fn lemma_diagonal_has(pieces: Mask, blockers: Mask, t: int)
    requires
        0 <= t < 64,
    ensures
        diagonal_threats(pieces, blockers).has(t) <==> exists|s: int|
            0 <= s < 64 && pieces.has(s) && #[trigger] sees_diagonal(Square::of(s), blockers, t),
{
    broadcast use group_bit_facts;

    lemma_directional_has(pieces, Dir::NorthWest, blockers, t);
    lemma_directional_has(pieces, Dir::NorthEast, blockers, t);
    lemma_directional_has(pieces, Dir::SouthEast, blockers, t);
    lemma_directional_has(pieces, Dir::SouthWest, blockers, t);
    if diagonal_threats(pieces, blockers).has(t) {
        let dir = if directional_threats_spec(pieces, Dir::NorthWest, blockers).has(t) {
            Dir::NorthWest
        } else if directional_threats_spec(pieces, Dir::NorthEast, blockers).has(t) {
            Dir::NorthEast
        } else if directional_threats_spec(pieces, Dir::SouthEast, blockers).has(t) {
            Dir::SouthEast
        } else {
            Dir::SouthWest
        };
        let s = choose|s: int|
            0 <= s < 64 && pieces.has(s) && #[trigger] sees(Square::of(s), dir, blockers, t);
        assert(sees_diagonal(Square::of(s), blockers, t));
    }
    if exists|s: int|
        0 <= s < 64 && pieces.has(s) && #[trigger] sees_diagonal(Square::of(s), blockers, t) {
        let s = choose|s: int|
            0 <= s < 64 && pieces.has(s) && #[trigger] sees_diagonal(Square::of(s), blockers, t);
        let sq = Square::of(s);
        if sees(sq, Dir::NorthWest, blockers, t) {
        } else if sees(sq, Dir::NorthEast, blockers, t) {
        } else if sees(sq, Dir::SouthEast, blockers, t) {
        } else {
            assert(sees(sq, Dir::SouthWest, blockers, t));
        }
    }
}

impl HalfBitBoard {
    /// The pieces of a kind that are left to attack when the piece `cap`
    /// is taken off the board; a king is never taken.
    pub open spec fn attackers(self, kind: Piece, cap: Option<(Square, Piece)>) -> Mask {
        if kind == Piece::King {
            self.kings.0
        } else {
            captured_of(self.piece_mask_spec(kind), kind, cap)
        }
    }

    /// Whether a piece of the side attacks the square `t`.
    pub open spec fn attacked(
        self,
        color: Color,
        opposite: Mask,
        cap: Option<(Square, Piece)>,
        t: int,
    ) -> bool {
        exists|kind: Piece, s: int|
            0 <= s < 64 && self.attackers(kind, cap).has(s) && #[trigger] attacks(
                kind,
                color,
                Square::of(s),
                self.blocking_spec(opposite, cap),
                t,
            )
    }

    /// The squares that the side attacks are those that one of its pieces
    /// attacks.
    #[verifier::rlimit(50)]
    pub proof fn lemma_threats_has(
        self,
        color: Color,
        opposite: Mask,
        cap: Option<(Square, Piece)>,
        t: int,
    )
        requires
            0 <= t < 64,
        ensures
            self.threats_spec(color, opposite, cap).has(t) <==> self.attacked(
                color,
                opposite,
                cap,
                t,
            ),
    {
        broadcast use group_bit_facts;

        let blocking = self.blocking_spec(opposite, cap);
        let queens = self.attackers(Piece::Queen, cap);
        let rooks = self.attackers(Piece::Rook, cap);
        let bishops = self.attackers(Piece::Bishop, cap);
        let knights = self.attackers(Piece::Knight, cap);
        let pawns = self.attackers(Piece::Pawn, cap);
        let kings = self.kings.0;
        let gk = |s: int| king_moves(Square::of(s)).0;
        let gn = |s: int| knight_moves(Square::of(s)).0;
        let gp = |s: int| pawn_attacks(Square::of(s), forward(color)).0;
        lemma_fold_or_has(kings, 64, king_threat_step(), gk, t);
        lemma_fold_or_has(knights, 64, knight_threat_step(), gn, t);
        lemma_fold_or_has(pawns, 64, pawn_threat_step(forward(color)), gp, t);
        lemma_straight_has(queens, blocking, t);
        lemma_diagonal_has(queens, blocking, t);
        lemma_straight_has(rooks, blocking, t);
        lemma_diagonal_has(bishops, blocking, t);
        let threats = self.threats_spec(color, opposite, cap);
        if threats.has(t) {
            if self.kings.threats_spec().has(t) {
                let s = choose|s: int| 0 <= s < 64 && kings.has(s) && bit(gk(s), t);
                assert(attacks(Piece::King, color, Square::of(s), blocking, t));
            } else if self.queens.captured_spec(cap).threats_spec(blocking).has(t) {
                if diagonal_threats(queens, blocking).has(t) {
                    let s = choose|s: int|
                        0 <= s < 64 && queens.has(s) && #[trigger] sees_diagonal(
                            Square::of(s),
                            blocking,
                            t,
                        );
                    assert(attacks(Piece::Queen, color, Square::of(s), blocking, t));
                } else {
                    let s = choose|s: int|
                        0 <= s < 64 && queens.has(s) && #[trigger] sees_straight(
                            Square::of(s),
                            blocking,
                            t,
                        );
                    assert(attacks(Piece::Queen, color, Square::of(s), blocking, t));
                }
            } else if self.rooks.captured_spec(cap).threats_spec(blocking).has(t) {
                let s = choose|s: int|
                    0 <= s < 64 && rooks.has(s) && #[trigger] sees_straight(
                        Square::of(s),
                        blocking,
                        t,
                    );
                assert(attacks(Piece::Rook, color, Square::of(s), blocking, t));
            } else if self.bishops.captured_spec(cap).threats_spec(blocking).has(t) {
                let s = choose|s: int|
                    0 <= s < 64 && bishops.has(s) && #[trigger] sees_diagonal(
                        Square::of(s),
                        blocking,
                        t,
                    );
                assert(attacks(Piece::Bishop, color, Square::of(s), blocking, t));
            } else if self.knights.captured_spec(cap).threats_spec().has(t) {
                let s = choose|s: int| 0 <= s < 64 && knights.has(s) && bit(gn(s), t);
                assert(attacks(Piece::Knight, color, Square::of(s), blocking, t));
            } else {
                assert(self.pawns.captured_spec(cap).threats_spec(color).has(t));
                let s = choose|s: int| 0 <= s < 64 && pawns.has(s) && bit(gp(s), t);
                assert(attacks(Piece::Pawn, color, Square::of(s), blocking, t));
            }
        }
        if self.attacked(color, opposite, cap, t) {
            let (kind, s) = choose|kind: Piece, s: int|
                0 <= s < 64 && self.attackers(kind, cap).has(s) && #[trigger] attacks(
                    kind,
                    color,
                    Square::of(s),
                    blocking,
                    t,
                );
            let sq = Square::of(s);
            match kind {
                Piece::King => {
                    assert(0 <= s < 64 && kings.has(s) && bit(gk(s), t));
                },
                Piece::Knight => {
                    assert(0 <= s < 64 && knights.has(s) && bit(gn(s), t));
                },
                Piece::Pawn => {
                    assert(0 <= s < 64 && pawns.has(s) && bit(gp(s), t));
                },
                Piece::Rook => {
                    assert(sees_straight(sq, blocking, t));
                },
                Piece::Bishop => {
                    assert(sees_diagonal(sq, blocking, t));
                },
                Piece::Queen => {
                    if sees_diagonal(sq, blocking, t) {
                    } else {
                        assert(sees_straight(sq, blocking, t));
                    }
                },
            }
        }
    }
}

} // verus!
