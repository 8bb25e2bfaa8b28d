//! Positions seen from the other side of the board: the ranks in the
//! other order and the colors changed.

use vstd::prelude::*;
use crate::bits::{bit, group_bit_facts, lemma_bit_single};
use crate::board::BitBoard;
use crate::enums::{Dir, Rank};
use crate::geometry::{lemma_go_at, lemma_ray_member, lemma_walk_at_any};
use crate::half::HalfBitBoard;
use crate::masks::{lemma_mask_equal, lemma_mirror_has};
use crate::metadata::Metadata;
use crate::pieces::bishops::Bishops;
use crate::pieces::kings::Kings;
use crate::pieces::knights::Knights;
use crate::pieces::pawns::{EnPassant, Pawns};
use crate::pieces::queens::Queens;
use crate::pieces::rooks::Rooks;
use crate::pieces::{ray, ray_upto, walk};
use crate::squares::{lemma_square_of, lemma_square_of_view, Square};
use crate::sums::{flip, lemma_flip_twice};

verus! {

impl Dir {
    /// The direction seen from the other side: north for south.
    pub open spec fn flipped(self) -> Dir {
        match self {
            Dir::North => Dir::South,
            Dir::NorthEast => Dir::SouthEast,
            Dir::East => Dir::East,
            Dir::SouthEast => Dir::NorthEast,
            Dir::South => Dir::North,
            Dir::SouthWest => Dir::NorthWest,
            Dir::West => Dir::West,
            Dir::NorthWest => Dir::SouthWest,
        }
    }
}

impl Square {
    /// The square on the same file with the ranks counted from the other
    /// end.
    pub open spec fn flipped(self) -> Square {
        Square::of(flip(self@))
    }
}

/// The square seen from the other side, or none.
pub open spec fn flipped_opt(o: Option<Square>) -> Option<Square> {
    match o {
        Some(q) => Some(q.flipped()),
        None => None,
    }
}

impl HalfBitBoard {
    /// The pieces seen from the other side.
    pub open spec fn mirrored(self) -> HalfBitBoard {
        HalfBitBoard {
            kings: Kings(self.kings.0.mirror_spec()),
            queens: Queens(self.queens.0.mirror_spec()),
            rooks: Rooks(self.rooks.0.mirror_spec()),
            bishops: Bishops(self.bishops.0.mirror_spec()),
            knights: Knights(self.knights.0.mirror_spec()),
            pawns: Pawns(self.pawns.0.mirror_spec()),
        }
    }

    /// The pieces seen from the other side.
    pub fn mirror(&self) -> (r: HalfBitBoard)
        ensures
            r == self.mirrored(),
    {
        HalfBitBoard {
            kings: Kings::new(self.kings.as_mask().mirror()),
            queens: Queens::new(self.queens.as_mask().mirror()),
            rooks: Rooks::new(self.rooks.as_mask().mirror()),
            bishops: Bishops::new(self.bishops.as_mask().mirror()),
            knights: Knights::new(self.knights.as_mask().mirror()),
            pawns: Pawns::new(self.pawns.as_mask().mirror()),
        }
    }
}

impl EnPassant {
    /// The capture in passing seen from the other side.
    pub open spec fn flipped(self) -> EnPassant {
        EnPassant { to: self.to.flipped(), capture: self.capture.flipped() }
    }
}

impl BitBoard {
    /// The position seen from the other side: the ranks in the other
    /// order, each side with the pieces, the move and the castling rights
    /// of the other.
    pub open spec fn mirrored(self) -> BitBoard {
        BitBoard {
            metadata: Metadata {
                to_move: self.metadata.to_move.other_spec(),
                white_castling: self.metadata.black_castling,
                black_castling: self.metadata.white_castling,
                en_passant: match self.metadata.en_passant {
                    Some(ep) => Some(ep.flipped()),
                    None => None,
                },
                ..self.metadata
            },
            white: self.black.mirrored(),
            black: self.white.mirrored(),
        }
    }

    /// The position seen from the other side.
    pub fn mirror(&self) -> (r: BitBoard)
        ensures
            r == self.mirrored(),
    {
        let en_passant = match self.metadata.en_passant {
            Some(ep) => Some(EnPassant { to: flip_square(ep.to), capture: flip_square(ep.capture) }),
            None => None,
        };
        BitBoard {
            metadata: Metadata {
                to_move: self.metadata.to_move.other(),
                tempo: self.metadata.tempo,
                last_change: self.metadata.last_change,
                white_castling: self.metadata.black_castling,
                black_castling: self.metadata.white_castling,
                castling_details: self.metadata.castling_details,
                en_passant,
            },
            white: self.black.mirror(),
            black: self.white.mirror(),
        }
    }
}

/// The square on the same file with the ranks counted from the other
/// end.
pub fn flip_square(sq: Square) -> (r: Square)
    ensures
        r == sq.flipped(),
{
    Square::at(sq.file(), flip_rank(sq.rank()))
}

/// The rank counted from the other end.
pub fn flip_rank(rank: Rank) -> (r: Rank)
    ensures
        r.ix() == 7 - rank.ix(),
{
    match rank {
        Rank::_1 => Rank::_8,
        Rank::_2 => Rank::_7,
        Rank::_3 => Rank::_6,
        Rank::_4 => Rank::_5,
        Rank::_5 => Rank::_4,
        Rank::_6 => Rank::_3,
        Rank::_7 => Rank::_2,
        Rank::_8 => Rank::_1,
    }
}

/// A flipped square is on the board, and flipped again it is the
/// square.
pub proof fn lemma_flipped(s: Square)
    requires
        s.on_board(),
    ensures
        s.flipped().on_board(),
        s.flipped()@ == flip(s@),
        s.flipped().flipped() == s,
{
    lemma_flip_twice(s@);
    lemma_square_of(flip(s@));
    lemma_square_of_view(s);
}

/// A step seen from the other side is the step of the flipped square in
/// the flipped direction.
pub proof fn lemma_go_flipped(s: Square, dir: Dir)
    requires
        s.on_board(),
    ensures
        s.flipped().go_spec(dir.flipped()) == flipped_opt(s.go_spec(dir)),
{
    lemma_flipped(s);
    lemma_go_at(s, dir);
    lemma_go_at(s.flipped(), dir.flipped());
    lemma_flip_twice(s@);
    match s.go_spec(dir) {
        Some(q) => {
            lemma_flipped(q);
            lemma_flip_twice(q@);
            let p = s.flipped().go_spec(dir.flipped()).unwrap();
            assert(p@ % 8 == q.flipped()@ % 8);
            assert(p@ / 8 == q.flipped()@ / 8);
            crate::squares::lemma_square_equal(p, q.flipped());
        },
        None => {},
    }
}

/// A walk seen from the other side is the walk of the flipped square in
/// the flipped direction.
pub proof fn lemma_walk_flipped(s: Square, dir: Dir, k: nat)
    requires
        s.on_board(),
    ensures
        walk(s.flipped(), dir.flipped(), k) == flipped_opt(walk(s, dir, k)),
    decreases k,
{
    if k > 0 {
        lemma_walk_flipped(s, dir, (k - 1) as nat);
        match walk(s, dir, (k - 1) as nat) {
            Some(p) => {
                if k > 1 {
                    lemma_walk_at_any(s, dir, (k - 1) as nat);
                }
                lemma_go_flipped(p, dir);
            },
            None => {},
        }
    }
}

/// Where a walk ends is on the ray.
pub proof fn lemma_ray_has_walk(s: Square, dir: Dir, k: nat, n: nat)
    requires
        1 <= k <= n,
        walk(s, dir, k).is_some(),
        walk(s, dir, k).unwrap().on_board(),
    ensures
        bit(ray_upto(s, dir, n), walk(s, dir, k).unwrap()@),
    decreases n,
{
    broadcast use group_bit_facts;

    let q = walk(s, dir, k).unwrap();
    if k < n {
        lemma_ray_has_walk(s, dir, k, (n - 1) as nat);
    } else {
        lemma_bit_single(q@, q@);
    }
}

/// A ray seen from the other side is the ray of the flipped square in
/// the flipped direction.
pub proof fn lemma_ray_flipped(s: Square, dir: Dir)
    requires
        s.on_board(),
    ensures
        ray(s.flipped(), dir.flipped()) == ray(s, dir).mirror_spec(),
{
    let there = ray(s.flipped(), dir.flipped());
    let here = ray(s, dir);
    lemma_flipped(s);
    assert forall|i: int| 0 <= i < 64 implies there.has(i) == here.mirror_spec().has(i) by {
        lemma_mirror_has(here, i);
        lemma_flip_twice(i);
        if there.has(i) {
            lemma_ray_member(s.flipped(), dir.flipped(), i, 7);
            let k = choose|k: nat|
                1 <= k <= 7 && (#[trigger] walk(s.flipped(), dir.flipped(), k)).is_some() && walk(
                    s.flipped(),
                    dir.flipped(),
                    k,
                ).unwrap()@ == i;
            lemma_walk_flipped(s, dir, k);
            let q = walk(s, dir, k).unwrap();
            lemma_walk_at_any(s, dir, k);
            lemma_flipped(q);
            lemma_ray_has_walk(s, dir, k, 7);
            assert(q@ == flip(i));
        }
        if here.has(flip(i)) {
            lemma_ray_member(s, dir, flip(i), 7);
            let k = choose|k: nat|
                1 <= k <= 7 && (#[trigger] walk(s, dir, k)).is_some() && walk(s, dir, k).unwrap()@
                    == flip(i);
            lemma_walk_flipped(s, dir, k);
            let q = walk(s, dir, k).unwrap();
            lemma_walk_at_any(s, dir, k);
            lemma_flipped(q);
            lemma_ray_has_walk(s.flipped(), dir.flipped(), k, 7);
        }
    }
    lemma_mask_equal(there, here.mirror_spec());
}

} // verus!
