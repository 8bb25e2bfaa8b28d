//! The positions that arise in play from the start of a game.

use vstd::prelude::*;
use crate::attacks::{attacks, sees};
use crate::bits::{bit, group_bit_facts};
use crate::board::{standard_array, starting_square, BitBoard};
use crate::enums::{Color, ColorPiece, Dir, Piece};
use crate::masks::{lemma_count_single, Mask};
use crate::metadata::Metadata;
use crate::moves::Move;
use crate::pieces::kings::king_moves;
use crate::pieces::knights::knight_moves;
use crate::pieces::pawns::forward;
use crate::pieces::{opt_word, ray, ray_upto, walk};
use crate::squares::{lemma_square_of, Square};
use crate::geometry::{
    lemma_go_at, lemma_goes_two, lemma_pawn_attacks, lemma_ray_member, lemma_walk_at,
};
use crate::validity::lemma_standard_castling_sound;
use crate::zobrist::BitBoardHasher;

verus! {

/// The squares next to a square are at most a rank away.
pub proof fn lemma_king_moves_near(s: Square, t: int)
    requires
        s.on_board(),
        king_moves(s).has(t),
    ensures
        s@ / 8 - 1 <= t / 8 <= s@ / 8 + 1,
{
    broadcast use group_bit_facts;

    lemma_go_at(s, Dir::North);
    lemma_go_at(s, Dir::East);
    lemma_go_at(s, Dir::South);
    lemma_go_at(s, Dir::West);
    lemma_go_at(s, Dir::NorthEast);
    lemma_go_at(s, Dir::SouthEast);
    lemma_go_at(s, Dir::SouthWest);
    lemma_go_at(s, Dir::NorthWest);
}

/// The end of a walk of two steps is at most two ranks away.
pub proof fn lemma_two_steps_near(s: Square, d1: Dir, d2: Dir, t: int)
    requires
        s.on_board(),
        bit(opt_word(s.goes_spec(seq![d1, d2])), t),
    ensures
        s@ / 8 - 2 <= t / 8 <= s@ / 8 + 2,
{
    broadcast use group_bit_facts;

    lemma_goes_two(s, d1, d2);
    lemma_go_at(s, d1);
    match s.go_spec(d1) {
        Some(m) => {
            lemma_go_at(m, d2);
        },
        None => {},
    }
}

/// The squares a knight's jump away are at most two ranks away.
pub proof fn lemma_knight_moves_near(s: Square, t: int)
    requires
        s.on_board(),
        knight_moves(s).has(t),
    ensures
        s@ / 8 - 2 <= t / 8 <= s@ / 8 + 2,
{
    broadcast use group_bit_facts;

    if bit(opt_word(s.goes_spec(seq![Dir::North, Dir::NorthEast])), t) {
        lemma_two_steps_near(s, Dir::North, Dir::NorthEast, t);
    } else if bit(opt_word(s.goes_spec(seq![Dir::North, Dir::NorthWest])), t) {
        lemma_two_steps_near(s, Dir::North, Dir::NorthWest, t);
    } else if bit(opt_word(s.goes_spec(seq![Dir::East, Dir::SouthEast])), t) {
        lemma_two_steps_near(s, Dir::East, Dir::SouthEast, t);
    } else if bit(opt_word(s.goes_spec(seq![Dir::East, Dir::NorthEast])), t) {
        lemma_two_steps_near(s, Dir::East, Dir::NorthEast, t);
    } else if bit(opt_word(s.goes_spec(seq![Dir::South, Dir::SouthWest])), t) {
        lemma_two_steps_near(s, Dir::South, Dir::SouthWest, t);
    } else if bit(opt_word(s.goes_spec(seq![Dir::South, Dir::SouthEast])), t) {
        lemma_two_steps_near(s, Dir::South, Dir::SouthEast, t);
    } else if bit(opt_word(s.goes_spec(seq![Dir::West, Dir::NorthWest])), t) {
        lemma_two_steps_near(s, Dir::West, Dir::NorthWest, t);
    } else {
        lemma_two_steps_near(s, Dir::West, Dir::SouthWest, t);
    }
}

/// The first square of a ray is on the ray.
pub proof fn lemma_ray_first(s: Square, dir: Dir)
    ensures
        s.go_spec(dir) matches Some(q) ==> q.on_board() ==> ray(s, dir).has(q@),
{
    broadcast use group_bit_facts;

    assert(walk(s, dir, 0) == Some(s));
    assert(walk(s, dir, 1) == s.go_spec(dir));
    match s.go_spec(dir) {
        Some(q) => {
            if q.on_board() {
                assert(bit(ray_upto(s, dir, 1), q@));
                assert(bit(ray_upto(s, dir, 2), q@));
                assert(bit(ray_upto(s, dir, 3), q@));
                assert(bit(ray_upto(s, dir, 4), q@));
                assert(bit(ray_upto(s, dir, 5), q@));
                assert(bit(ray_upto(s, dir, 6), q@));
                assert(bit(ray_upto(s, dir, 7), q@));
            }
        },
        None => {},
    }
}

/// A walk that goes on has made its first step.
pub proof fn lemma_walk_began(s: Square, dir: Dir, n: nat)
    requires
        n >= 1,
        walk(s, dir, n).is_some(),
    ensures
        s.go_spec(dir).is_some(),
    decreases n,
{
    assert(walk(s, dir, 0) == Some(s));
    if n > 1 {
        lemma_walk_began(s, dir, (n - 1) as nat);
    }
}

/// A sliding piece on the first rank does not see the last rank when the
/// second rank is full.
pub proof fn lemma_back_rank_unseen(s: Square, dir: Dir, blocking: Mask, t: int)
    requires
        s.on_board(),
        s@ / 8 == 0,
        t / 8 == 7,
        forall|u: int| 8 <= u < 16 ==> blocking.has(u),
    ensures
        !sees(s, dir, blocking, t),
{
    broadcast use group_bit_facts;

    if sees(s, dir, blocking, t) {
        lemma_ray_member(s, dir, t, 7);
        let k = choose|k: nat|
            1 <= k <= 7 && (#[trigger] walk(s, dir, k)).is_some() && walk(s, dir, k).unwrap()@ == t;
        lemma_walk_at(s, dir, k);
        lemma_walk_began(s, dir, k);
        lemma_go_at(s, dir);
        lemma_ray_first(s, dir);
        let q = s.go_spec(dir).unwrap();
        assert(dir.dy() == 1);
        assert(8 <= q@ < 16);
        assert(ray(s, dir).has(q@) && blocking.has(q@));
        assert(false);
    }
}

impl BitBoard {
    /// The position at the start of a game of standard chess is a
    /// position as it arises in play.
    #[verifier::rlimit(50)]
    pub proof fn lemma_start_valid(self)
        requires
            self.metadata == Metadata::start(),
            self.shows(Seq::new(64, |i: int| starting_square(standard_array(), i))),
        ensures
            self.valid(),
    {
        broadcast use group_bit_facts;

        let board = Seq::new(64, |i: int| starting_square(standard_array(), i));
        lemma_standard_castling_sound();
        assert forall|i: int, c: Color, p: Piece| 0 <= i < 64 implies (#[trigger] self.side(
            c,
        ).piece_mask_spec(p).has(i) <==> starting_square(standard_array(), i) == Some(
            ColorPiece::of(c, p),
        )) by {
            assert(board[i] == starting_square(standard_array(), i));
        }
        // one king a side
        assert forall|i: int| 0 <= i < 64 implies (self.white.kings.0.has(i) <==> i == 4) by {
            assert(self.side(Color::White).piece_mask_spec(Piece::King).has(i) <==> i == 4);
        }
        assert forall|i: int| 0 <= i < 64 implies (self.black.kings.0.has(i) <==> i == 60) by {
            assert(self.side(Color::Black).piece_mask_spec(Piece::King).has(i) <==> i == 60);
        }
        lemma_count_single(self.white.kings.0, 4);
        lemma_count_single(self.black.kings.0, 60);
        // no square with two pieces
        assert forall|i: int| 0 <= i < 64 implies !(#[trigger] self.white.as_mask_spec().has(i)
            && self.black.as_mask_spec().has(i)) by {
            self.white.lemma_as_mask_has(i);
            self.black.lemma_as_mask_has(i);
            if self.white.as_mask_spec().has(i) && self.black.as_mask_spec().has(i) {
                let k = choose|k: Piece| #[trigger] self.white.piece_mask_spec(k).has(i);
                let j = choose|j: Piece| #[trigger] self.black.piece_mask_spec(j).has(i);
                assert(self.side(Color::White).piece_mask_spec(k).has(i));
                assert(self.side(Color::Black).piece_mask_spec(j).has(i));
            }
        }
        assert forall|i: int, x: Piece, y: Piece| 0 <= i < 64 && x != y implies !(
        #[trigger] self.white.piece_mask_spec(x).has(i) && #[trigger] self.white.piece_mask_spec(
            y,
        ).has(i)) by {
            assert(self.side(Color::White).piece_mask_spec(x).has(i) <==> starting_square(
                standard_array(),
                i,
            ) == Some(ColorPiece::of(Color::White, x)));
            assert(self.side(Color::White).piece_mask_spec(y).has(i) <==> starting_square(
                standard_array(),
                i,
            ) == Some(ColorPiece::of(Color::White, y)));
        }
        assert forall|i: int, x: Piece, y: Piece| 0 <= i < 64 && x != y implies !(
        #[trigger] self.black.piece_mask_spec(x).has(i) && #[trigger] self.black.piece_mask_spec(
            y,
        ).has(i)) by {
            assert(self.side(Color::Black).piece_mask_spec(x).has(i) <==> starting_square(
                standard_array(),
                i,
            ) == Some(ColorPiece::of(Color::Black, x)));
            assert(self.side(Color::Black).piece_mask_spec(y).has(i) <==> starting_square(
                standard_array(),
                i,
            ) == Some(ColorPiece::of(Color::Black, y)));
        }
        // the kings and the rooks where castling starts
        lemma_square_of(0);
        lemma_square_of(4);
        lemma_square_of(7);
        lemma_square_of(56);
        lemma_square_of(60);
        lemma_square_of(63);
        assert(self.side(Color::White).piece_mask_spec(Piece::Rook).has(0));
        assert(self.side(Color::White).piece_mask_spec(Piece::Rook).has(7));
        assert(self.side(Color::White).piece_mask_spec(Piece::King).has(4));
        assert(self.side(Color::Black).piece_mask_spec(Piece::Rook).has(56));
        assert(self.side(Color::Black).piece_mask_spec(Piece::Rook).has(63));
        assert(self.side(Color::Black).piece_mask_spec(Piece::King).has(60));
        assert(self.castling_sound(Color::White));
        assert(self.castling_sound(Color::Black));
        // Black is not in check
        self.lemma_start_quiet();
    }

    /// At the start of a game the black king is not attacked.
    #[verifier::rlimit(50)]
    proof fn lemma_start_quiet(self)
        requires
            self.metadata == Metadata::start(),
            self.shows(Seq::new(64, |i: int| starting_square(standard_array(), i))),
            forall|i: int| 0 <= i < 64 ==> (self.black.kings.0.has(i) <==> i == 60),
        ensures
            !self.is_in_check_spec(Color::Black),
    {
        broadcast use group_bit_facts;

        let board = Seq::new(64, |i: int| starting_square(standard_array(), i));
        let white = self.white;
        let opposite = self.black.as_mask_spec();
        let threats = white.threats_spec(Color::White, opposite, None);
        let hit = self.black.kings.0.0 & threats.0;
        if hit != 0 {
            crate::bits::lemma_lowest(hit);
            let t = crate::bits::lowest(hit);
            assert(self.black.kings.0.has(t) && threats.has(t));
            assert(t == 60);
            white.lemma_threats_has(Color::White, opposite, None, t);
            let blocking = white.blocking_spec(opposite, None);
            let (kind, s) = choose|kind: Piece, s: int|
                0 <= s < 64 && white.attackers(kind, None).has(s) && #[trigger] attacks(
                    kind,
                    Color::White,
                    Square::of(s),
                    blocking,
                    t,
                );
            let sq = Square::of(s);
            lemma_square_of(s);
            assert(self.side(Color::White).piece_mask_spec(kind).has(s) <==> board[s] == Some(
                ColorPiece::of(Color::White, kind),
            ));
            assert(white.piece_mask_spec(kind).has(s));
            assert(s < 16);
            assert forall|u: int| 8 <= u < 16 implies blocking.has(u) by {
                assert(self.side(Color::White).piece_mask_spec(Piece::Pawn).has(u) <==> board[u]
                    == Some(ColorPiece::of(Color::White, Piece::Pawn)));
                white.lemma_as_mask_has(u);
            }
            match kind {
                Piece::King => {
                    lemma_king_moves_near(sq, t);
                },
                Piece::Knight => {
                    lemma_knight_moves_near(sq, t);
                },
                Piece::Pawn => {
                    lemma_pawn_attacks(sq, forward(Color::White), t);
                },
                _ => {
                    assert(s < 8);
                    lemma_back_rank_unseen(sq, Dir::North, blocking, t);
                    lemma_back_rank_unseen(sq, Dir::East, blocking, t);
                    lemma_back_rank_unseen(sq, Dir::South, blocking, t);
                    lemma_back_rank_unseen(sq, Dir::West, blocking, t);
                    lemma_back_rank_unseen(sq, Dir::NorthWest, blocking, t);
                    lemma_back_rank_unseen(sq, Dir::NorthEast, blocking, t);
                    lemma_back_rank_unseen(sq, Dir::SouthEast, blocking, t);
                    lemma_back_rank_unseen(sq, Dir::SouthWest, blocking, t);
                },
            }
            assert(false);
        }
    }

    /// The position after a line of moves.
    pub open spec fn after_line(self, line: Seq<Move>) -> BitBoard
        decreases line.len(),
    {
        if line.len() == 0 {
            self
        } else {
            self.after_line(line.drop_last()).apply_spec(line.last())
        }
    }

    /// Whether each move of a line is a legal move of the position that
    /// the moves before it lead to.
    pub open spec fn legal_line(self, line: Seq<Move>) -> bool
        decreases line.len(),
    {
        if line.len() == 0 {
            true
        } else {
            self.legal_line(line.drop_last()) && self.after_line(
                line.drop_last(),
            ).legal_moves().contains(line.last())
        }
    }

    /// Every position that a line of legal moves leads to from a position
    /// as it arises in play is one: each side has one king, no square
    /// holds two pieces, the capture in passing that is open is in
    /// keeping with the pieces, and the side that has moved is not in
    /// check.
    pub proof fn lemma_line_keeps_valid(self, line: Seq<Move>)
        requires
            self.valid(),
            self.legal_line(line),
        ensures
            self.after_line(line).valid(),
        decreases line.len(),
    {
        if line.len() > 0 {
            self.lemma_line_keeps_valid(line.drop_last());
            self.after_line(line.drop_last()).lemma_apply_keeps_valid(line.last());
        }
    }

    /// For every legal move of a position as it arises in play, the hash
    /// that `delta` makes of the hash of the position is the hash of the
    /// position after the move.
    pub proof fn lemma_delta_follows_moves(self, hasher: BitBoardHasher, m: Move)
        requires
            self.valid(),
            hasher.wf(),
            self.legal_moves().contains(m),
        ensures
            hasher.delta_spec(self.metadata, hasher.hash_full_spec(self), m)
                == hasher.hash_full_spec(self.apply_spec(m)),
    {
        self.lemma_moves_generated();
        let i = choose|i: int| 0 <= i < self.legal_moves().len() && self.legal_moves()[i] == m;
        assert(self.generated(self.legal_moves()[i]));
        self.lemma_lands_well(m);
        if self.castling_move(m) {
            self.lemma_castling_lands(m);
            assert(self.metadata.castling_details.ooo.sound());
            assert(self.metadata.castling_details.oo.sound());
        }
        crate::hash_laws::lemma_delta_is_hash_after(hasher, self, m);
    }
}

} // verus!
