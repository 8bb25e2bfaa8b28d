//! That what the pieces reach and attack looks the same from the other
//! side of the board.

use vstd::prelude::*;
use crate::attacks::{attacks, sees};
use crate::bits::{bit, group_bit_facts, lemma_bit_single};
use crate::enums::{Color, Dir, Piece};
use crate::geometry::{lemma_goes_two, lemma_ray_member, lemma_walk_at};
use crate::half::HalfBitBoard;
use crate::masks::{lemma_mask_equal, lemma_mirror_has, Mask};
use crate::mirror::{flipped_opt, lemma_flipped, lemma_go_flipped, lemma_ray_flipped};
use crate::pieces::kings::king_moves;
use crate::pieces::knights::knight_moves;
use crate::pieces::pawns::{forward, pawn_attacks, pawn_pushes};
use crate::pieces::{lemma_slide_word, opt_word, plain_dests, ray, slide_moves, slide_reach, walk};
use crate::squares::Square;
use crate::sums::{flip, lemma_flip_twice};

verus! {

/// Two squares of a ray come in the same order seen from the other
/// side.
pub proof fn lemma_order_flipped(s: Square, dir: Dir, u: int, t: int)
    requires
        s.on_board(),
        ray(s, dir).has(u),
        ray(s, dir).has(t),
    ensures
        (if dir.ascends() {
            u < t
        } else {
            u > t
        }) <==> (if dir.flipped().ascends() {
            flip(u) < flip(t)
        } else {
            flip(u) > flip(t)
        }),
{
    lemma_ray_member(s, dir, u, 7);
    lemma_ray_member(s, dir, t, 7);
    let k = choose|k: nat|
        1 <= k <= 7 && (#[trigger] walk(s, dir, k)).is_some() && walk(s, dir, k).unwrap()@ == u;
    let j = choose|j: nat|
        1 <= j <= 7 && (#[trigger] walk(s, dir, j)).is_some() && walk(s, dir, j).unwrap()@ == t;
    lemma_walk_at(s, dir, k);
    lemma_walk_at(s, dir, j);
    lemma_flip_twice(u);
    lemma_flip_twice(t);
    assert(u == 8 * (u / 8) + u % 8);
    assert(t == 8 * (t / 8) + t % 8);
}

/// What a sliding piece reaches in one direction looks the same from
/// the other side.
pub proof fn lemma_slide_flipped(s: Square, dir: Dir, same: Mask, other: Mask, t: int)
    requires
        s.on_board(),
        0 <= t < 64,
    ensures
        bit(
            slide_moves(s.flipped(), dir.flipped(), same.mirror_spec(), other.mirror_spec()),
            t,
        ) <==> bit(slide_moves(s, dir, same, other), flip(t)),
{
    broadcast use group_bit_facts;

    let here = ray(s, dir);
    let there = ray(s.flipped(), dir.flipped());
    let same2 = same.mirror_spec();
    let other2 = other.mirror_spec();
    lemma_ray_flipped(s, dir);
    lemma_flip_twice(t);
    lemma_slide_word(dir.flipped().ascends(), there, same2, other2, t);
    lemma_slide_word(dir.ascends(), here, same, other, flip(t));
    lemma_mirror_has(here, t);
    lemma_mirror_has(same, t);
    lemma_mirror_has(other, t);
    if there.has(t) {
        if slide_reach(dir.flipped().ascends(), there, same2, other2, t) {
            assert forall|v: int|
                0 <= v < 64 && (if dir.ascends() {
                    v < flip(t)
                } else {
                    v > flip(t)
                }) implies !(#[trigger] here.has(v) && (same.has(v) || other.has(v))) by {
                if here.has(v) && (same.has(v) || other.has(v)) {
                    let u = flip(v);
                    lemma_flip_twice(v);
                    lemma_mirror_has(here, u);
                    lemma_mirror_has(same, u);
                    lemma_mirror_has(other, u);
                    lemma_order_flipped(s, dir, v, flip(t));
                    assert(there.has(u) && (same2.has(u) || other2.has(u)));
                }
            }
        }
        if slide_reach(dir.ascends(), here, same, other, flip(t)) {
            assert forall|u: int|
                0 <= u < 64 && (if dir.flipped().ascends() {
                    u < t
                } else {
                    u > t
                }) implies !(#[trigger] there.has(u) && (same2.has(u) || other2.has(u))) by {
                if there.has(u) && (same2.has(u) || other2.has(u)) {
                    let v = flip(u);
                    lemma_flip_twice(u);
                    lemma_mirror_has(here, u);
                    lemma_mirror_has(same, u);
                    lemma_mirror_has(other, u);
                    lemma_order_flipped(s, dir, v, flip(t));
                    assert(here.has(v) && (same.has(v) || other.has(v)));
                }
            }
        }
    }
}

/// The square of a step seen from the other side.
pub proof fn lemma_opt_flipped(o: Option<Square>, t: int)
    requires
        0 <= t < 64,
        o matches Some(q) ==> q.on_board(),
    ensures
        bit(opt_word(flipped_opt(o)), t) <==> bit(opt_word(o), flip(t)),
{
    broadcast use group_bit_facts;

    lemma_flip_twice(t);
    match o {
        Some(q) => {
            lemma_flipped(q);
            lemma_flip_twice(q@);
            lemma_bit_single(q@, flip(t));
            lemma_bit_single(flip(q@), t);
        },
        None => {},
    }
}

/// One step from the flipped square in a direction.
pub proof fn lemma_step_flipped(s: Square, dir: Dir, t: int)
    requires
        s.on_board(),
        0 <= t < 64,
    ensures
        bit(opt_word(s.flipped().go_spec(dir.flipped())), t) <==> bit(
            opt_word(s.go_spec(dir)),
            flip(t),
        ),
{
    lemma_go_flipped(s, dir);
    crate::geometry::lemma_go_at(s, dir);
    lemma_opt_flipped(s.go_spec(dir), t);
}

/// Two steps from the flipped square.
pub proof fn lemma_steps_flipped(s: Square, d1: Dir, d2: Dir, t: int)
    requires
        s.on_board(),
        0 <= t < 64,
    ensures
        bit(opt_word(s.flipped().goes_spec(seq![d1.flipped(), d2.flipped()])), t) <==> bit(
            opt_word(s.goes_spec(seq![d1, d2])),
            flip(t),
        ),
{
    lemma_goes_two(s, d1, d2);
    lemma_goes_two(s.flipped(), d1.flipped(), d2.flipped());
    lemma_go_flipped(s, d1);
    crate::geometry::lemma_go_at(s, d1);
    match s.go_spec(d1) {
        Some(m) => {
            lemma_go_flipped(m, d2);
            crate::geometry::lemma_go_at(m, d2);
            lemma_opt_flipped(m.go_spec(d2), t);
        },
        None => {
            lemma_opt_flipped(None, t);
        },
    }
}

/// The squares next to the flipped square.
pub proof fn lemma_king_moves_flipped(s: Square, t: int)
    requires
        s.on_board(),
        0 <= t < 64,
    ensures
        king_moves(s.flipped()).has(t) <==> king_moves(s).has(flip(t)),
{
    broadcast use group_bit_facts;

    lemma_step_flipped(s, Dir::North, t);
    lemma_step_flipped(s, Dir::East, t);
    lemma_step_flipped(s, Dir::South, t);
    lemma_step_flipped(s, Dir::West, t);
    lemma_step_flipped(s, Dir::NorthEast, t);
    lemma_step_flipped(s, Dir::SouthEast, t);
    lemma_step_flipped(s, Dir::SouthWest, t);
    lemma_step_flipped(s, Dir::NorthWest, t);
}

/// The squares a knight's jump away from the flipped square.
pub proof fn lemma_knight_moves_flipped(s: Square, t: int)
    requires
        s.on_board(),
        0 <= t < 64,
    ensures
        knight_moves(s.flipped()).has(t) <==> knight_moves(s).has(flip(t)),
{
    broadcast use group_bit_facts;

    lemma_steps_flipped(s, Dir::North, Dir::NorthEast, t);
    lemma_steps_flipped(s, Dir::North, Dir::NorthWest, t);
    lemma_steps_flipped(s, Dir::East, Dir::SouthEast, t);
    lemma_steps_flipped(s, Dir::East, Dir::NorthEast, t);
    lemma_steps_flipped(s, Dir::South, Dir::SouthWest, t);
    lemma_steps_flipped(s, Dir::South, Dir::SouthEast, t);
    lemma_steps_flipped(s, Dir::West, Dir::NorthWest, t);
    lemma_steps_flipped(s, Dir::West, Dir::SouthWest, t);
}

/// The squares that a pawn of the other color on the flipped square
/// pushes to and attacks.
pub proof fn lemma_pawn_flipped(s: Square, dir: Dir, t: int)
    requires
        s.on_board(),
        0 <= t < 64,
        dir == Dir::North || dir == Dir::South,
    ensures
        pawn_pushes(s.flipped(), dir.flipped()).has(t) <==> pawn_pushes(s, dir).has(flip(t)),
        pawn_attacks(s.flipped(), dir.flipped()).has(t) <==> pawn_attacks(s, dir).has(flip(t)),
{
    broadcast use group_bit_facts;

    lemma_flipped(s);
    lemma_flip_twice(s@);
    lemma_step_flipped(s, dir, t);
    lemma_steps_flipped(s, dir, dir, t);
    lemma_steps_flipped(s, dir, Dir::East, t);
    lemma_steps_flipped(s, dir, Dir::West, t);
}

/// What a piece attacks looks the same from the other side.
pub proof fn lemma_attacks_flipped(kind: Piece, color: Color, s: Square, blocking: Mask, t: int)
    requires
        s.on_board(),
        0 <= t < 64,
    ensures
        attacks(kind, color.other_spec(), s.flipped(), blocking.mirror_spec(), t) <==> attacks(
            kind,
            color,
            s,
            blocking,
            flip(t),
        ),
{
    broadcast use group_bit_facts;

    lemma_king_moves_flipped(s, t);
    lemma_knight_moves_flipped(s, t);
    lemma_pawn_flipped(s, forward(color), t);
    lemma_sees_flipped(s, Dir::North, blocking, t);
    lemma_sees_flipped(s, Dir::East, blocking, t);
    lemma_sees_flipped(s, Dir::South, blocking, t);
    lemma_sees_flipped(s, Dir::West, blocking, t);
    lemma_sees_flipped(s, Dir::NorthWest, blocking, t);
    lemma_sees_flipped(s, Dir::NorthEast, blocking, t);
    lemma_sees_flipped(s, Dir::SouthEast, blocking, t);
    lemma_sees_flipped(s, Dir::SouthWest, blocking, t);
}

/// What a sliding piece sees looks the same from the other side.
pub proof fn lemma_sees_flipped(s: Square, dir: Dir, blocking: Mask, t: int)
    requires
        s.on_board(),
        0 <= t < 64,
    ensures
        sees(s.flipped(), dir.flipped(), blocking.mirror_spec(), t) <==> sees(
            s,
            dir,
            blocking,
            flip(t),
        ),
{
    broadcast use group_bit_facts;

    let none = Mask(0);
    assert forall|i: int| 0 <= i < 64 implies none.mirror_spec().has(i) == none.has(i) by {
        lemma_mirror_has(none, i);
    }
    lemma_mask_equal(none.mirror_spec(), none);
    lemma_slide_flipped(s, dir, none, blocking, t);
    lemma_flip_twice(t);
    lemma_slide_word(
        dir.flipped().ascends(),
        ray(s.flipped(), dir.flipped()),
        none,
        blocking.mirror_spec(),
        t,
    );
    lemma_slide_word(dir.ascends(), ray(s, dir), none, blocking, flip(t));
}

/// The squares that a queen, a rook, a bishop or a knight may go to look
/// the same from the other side.
pub proof fn lemma_plain_dests_flipped(kind: Piece, s: Square, a: Mask, p: Mask)
    requires
        s.on_board(),
    ensures
        plain_dests(kind, s.flipped(), a.mirror_spec(), p.mirror_spec()) == plain_dests(
            kind,
            s,
            a,
            p,
        ).mirror_spec(),
{
    broadcast use group_bit_facts;

    let there = plain_dests(kind, s.flipped(), a.mirror_spec(), p.mirror_spec());
    let here = plain_dests(kind, s, a, p);
    assert forall|t: int| 0 <= t < 64 implies there.has(t) == here.mirror_spec().has(t) by {
        lemma_mirror_has(here, t);
        lemma_mirror_has(a, t);
        lemma_flip_twice(t);
        lemma_slide_flipped(s, Dir::North, a, p, t);
        lemma_slide_flipped(s, Dir::East, a, p, t);
        lemma_slide_flipped(s, Dir::South, a, p, t);
        lemma_slide_flipped(s, Dir::West, a, p, t);
        lemma_slide_flipped(s, Dir::NorthWest, a, p, t);
        lemma_slide_flipped(s, Dir::NorthEast, a, p, t);
        lemma_slide_flipped(s, Dir::SouthEast, a, p, t);
        lemma_slide_flipped(s, Dir::SouthWest, a, p, t);
        lemma_knight_moves_flipped(s, t);
    }
    lemma_mask_equal(there, here.mirror_spec());
}

/// What is captured, seen from the other side.
pub open spec fn flipped_capture(cap: Option<(Square, Piece)>) -> Option<(Square, Piece)> {
    match cap {
        Some((sq, k)) => Some((sq.flipped(), k)),
        None => None,
    }
}

/// Two sets share a square where the sets seen from the other side do.
pub proof fn lemma_meet_flipped(a: Mask, b: Mask)
    ensures
        a.mirror_spec().0 & b.mirror_spec().0 != 0 <==> a.0 & b.0 != 0,
{
    crate::checking::lemma_apart(a, b);
    crate::checking::lemma_apart(a.mirror_spec(), b.mirror_spec());
    if a.0 & b.0 != 0 {
        let i = choose|i: int| 0 <= i < 64 && #[trigger] a.has(i) && b.has(i);
        lemma_flip_twice(i);
        lemma_mirror_has(a, flip(i));
        lemma_mirror_has(b, flip(i));
        assert(a.mirror_spec().has(flip(i)) && b.mirror_spec().has(flip(i)));
    }
    if a.mirror_spec().0 & b.mirror_spec().0 != 0 {
        let i = choose|i: int|
            0 <= i < 64 && #[trigger] a.mirror_spec().has(i) && b.mirror_spec().has(i);
        lemma_flip_twice(i);
        lemma_mirror_has(a, i);
        lemma_mirror_has(b, i);
        assert(a.has(flip(i)) && b.has(flip(i)));
    }
}

impl HalfBitBoard {
    /// The squares that the side stands on, seen from the other side.
    pub proof fn lemma_as_mask_mirrored(self)
        ensures
            self.mirrored().as_mask_spec() == self.as_mask_spec().mirror_spec(),
            forall|k: Piece|
                #[trigger] self.mirrored().piece_mask_spec(k) == self.piece_mask_spec(
                    k,
                ).mirror_spec(),
    {
        broadcast use group_bit_facts;

        let there = self.mirrored().as_mask_spec();
        let here = self.as_mask_spec().mirror_spec();
        assert forall|i: int| 0 <= i < 64 implies there.has(i) == here.has(i) by {
            lemma_mirror_has(self.as_mask_spec(), i);
            lemma_mirror_has(self.kings.0, i);
            lemma_mirror_has(self.queens.0, i);
            lemma_mirror_has(self.rooks.0, i);
            lemma_mirror_has(self.bishops.0, i);
            lemma_mirror_has(self.knights.0, i);
            lemma_mirror_has(self.pawns.0, i);
        }
        lemma_mask_equal(there, here);
    }

    /// What stands on a square, seen from the other side.
    pub proof fn lemma_capture_at_mirrored(self, sq: Square)
        requires
            sq.on_board(),
        ensures
            self.mirrored().piece_at_spec(sq.flipped()) == self.piece_at_spec(sq),
            self.mirrored().capture_at(sq.flipped()) == flipped_capture(self.capture_at(sq)),
    {
        lemma_flipped(sq);
        lemma_flip_twice(sq@);
        let i = sq.flipped()@;
        lemma_mirror_has(self.kings.0, i);
        lemma_mirror_has(self.queens.0, i);
        lemma_mirror_has(self.rooks.0, i);
        lemma_mirror_has(self.bishops.0, i);
        lemma_mirror_has(self.knights.0, i);
        lemma_mirror_has(self.pawns.0, i);
    }

    /// The squares that the side attacks look the same from the other
    /// side.
    #[verifier::rlimit(50)]
    pub proof fn lemma_threats_mirrored(
        self,
        color: Color,
        opposite: Mask,
        cap: Option<(Square, Piece)>,
    )
        requires
            cap matches Some((sq, _)) ==> sq.on_board(),
        ensures
            self.mirrored().threats_spec(
                color.other_spec(),
                opposite.mirror_spec(),
                flipped_capture(cap),
            ) == self.threats_spec(color, opposite, cap).mirror_spec(),
    {
        broadcast use group_bit_facts;

        let there = self.mirrored();
        let cap2 = flipped_capture(cap);
        let seen2 = there.threats_spec(color.other_spec(), opposite.mirror_spec(), cap2);
        let seen = self.threats_spec(color, opposite, cap);
        let blocking = self.blocking_spec(opposite, cap);
        let blocking2 = there.blocking_spec(opposite.mirror_spec(), cap2);
        self.lemma_as_mask_mirrored();
        match cap {
            Some((sq, _)) => {
                lemma_flipped(sq);
                lemma_flip_twice(sq@);
            },
            None => {},
        }
        assert forall|i: int| 0 <= i < 64 implies blocking2.has(i) == blocking.mirror_spec().has(
            i,
        ) by {
            lemma_flip_twice(i);
            lemma_mirror_has(blocking, i);
            lemma_mirror_has(self.as_mask_spec(), i);
            lemma_mirror_has(opposite, i);
            match cap {
                Some((sq, _)) => {
                    lemma_bit_single(sq@, flip(i));
                    lemma_bit_single(sq.flipped()@, i);
                },
                None => {},
            }
        }
        lemma_mask_equal(blocking2, blocking.mirror_spec());
        assert forall|kind: Piece, s: int| 0 <= s < 64 implies (#[trigger] there.attackers(
            kind,
            cap2,
        ).has(s) <==> self.attackers(kind, cap).has(flip(s))) by {
            lemma_flip_twice(s);
            lemma_mirror_has(self.piece_mask_spec(kind), s);
            lemma_mirror_has(self.kings.0, s);
            match cap {
                Some((sq, _)) => {
                    lemma_bit_single(sq@, flip(s));
                    lemma_bit_single(sq.flipped()@, s);
                },
                None => {},
            }
        }
        assert forall|t: int| 0 <= t < 64 implies seen2.has(t) == seen.mirror_spec().has(t) by {
            lemma_flip_twice(t);
            lemma_mirror_has(seen, t);
            there.lemma_threats_has(color.other_spec(), opposite.mirror_spec(), cap2, t);
            self.lemma_threats_has(color, opposite, cap, flip(t));
            if seen2.has(t) {
                let (kind, s) = choose|kind: Piece, s: int|
                    0 <= s < 64 && there.attackers(kind, cap2).has(s) && #[trigger] attacks(
                        kind,
                        color.other_spec(),
                        Square::of(s),
                        blocking2,
                        t,
                    );
                lemma_flip_twice(s);
                let sq = Square::of(flip(s));
                crate::squares::lemma_square_of(flip(s));
                crate::squares::lemma_square_of(s);
                lemma_attacks_flipped(kind, color, sq, blocking, t);
                assert(sq.flipped() == Square::of(s));
                assert(self.attackers(kind, cap).has(flip(s)));
                assert(attacks(kind, color, Square::of(flip(s)), blocking, flip(t)));
            }
            if seen.has(flip(t)) {
                let (kind, s) = choose|kind: Piece, s: int|
                    0 <= s < 64 && self.attackers(kind, cap).has(s) && #[trigger] attacks(
                        kind,
                        color,
                        Square::of(s),
                        blocking,
                        flip(t),
                    );
                lemma_flip_twice(s);
                let sq = Square::of(s);
                crate::squares::lemma_square_of(flip(s));
                crate::squares::lemma_square_of(s);
                lemma_attacks_flipped(kind, color, sq, blocking, t);
                assert(sq.flipped() == Square::of(flip(s)));
                assert(there.attackers(kind, cap2).has(flip(s)));
                assert(attacks(kind, color.other_spec(), Square::of(flip(s)), blocking2, t));
            }
        }
        lemma_mask_equal(seen2, seen.mirror_spec());
    }
}

/// Whether a step leaves the king attacked looks the same from the other
/// side.
pub proof fn lemma_exposure_flipped(
    step: crate::moves::ProtoMove,
    active: Mask,
    king: crate::pieces::kings::Kings,
    capture: Option<(Square, Piece)>,
    passive: HalfBitBoard,
    passive_color: Color,
)
    requires
        step.from.on_board(),
        step.to.on_board(),
        capture matches Some((sq, _)) ==> sq.on_board(),
    ensures
        (crate::moves::ProtoMove {
            from: step.from.flipped(),
            to: step.to.flipped(),
        }).makes_king_checked_spec(
            active.mirror_spec(),
            crate::pieces::kings::Kings(king.0.mirror_spec()),
            flipped_capture(capture),
            passive.mirrored(),
            passive_color.other_spec(),
        ) == step.makes_king_checked_spec(active, king, capture, passive, passive_color),
{
    broadcast use group_bit_facts;

    let step2 = crate::moves::ProtoMove { from: step.from.flipped(), to: step.to.flipped() };
    let occ = Mask(active.0 ^ step.as_mask_spec().0);
    let occ2 = Mask(active.mirror_spec().0 ^ step2.as_mask_spec().0);
    lemma_flipped(step.from);
    lemma_flipped(step.to);
    assert forall|i: int| 0 <= i < 64 implies occ2.has(i) == occ.mirror_spec().has(i) by {
        lemma_flip_twice(i);
        lemma_mirror_has(occ, i);
        lemma_mirror_has(active, i);
        lemma_flip_twice(step.from@);
        lemma_flip_twice(step.to@);
        lemma_bit_single(step.from@, flip(i));
        lemma_bit_single(step.to@, flip(i));
        lemma_bit_single(step.from.flipped()@, i);
        lemma_bit_single(step.to.flipped()@, i);
    }
    lemma_mask_equal(occ2, occ.mirror_spec());
    passive.lemma_threats_mirrored(passive_color, occ, capture);
    lemma_meet_flipped(passive.threats_spec(passive_color, occ, capture), king.0);
}

} // verus!
