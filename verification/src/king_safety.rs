//! That no legal move leaves the king of the side that makes it
//! attacked, and that legal moves keep positions as they arise in play.

use vstd::prelude::*;
use crate::bits::{bit, group_bit_facts};
use crate::board::BitBoard;
use crate::castling::CastlingSide;
use crate::enums::{Color, Dir, Piece};
use crate::masks::{lemma_count_one, lemma_rank_word_has, rank_word, Mask};
use crate::moves::Move;
use crate::pieces::ray;
use crate::squares::{lemma_square_of, Square};
use crate::geometry::lemma_ray_along_rank;

verus! {

/// A sliding piece that sees a square sees it still when pieces are
/// taken off the other squares.
pub proof fn lemma_sees_weaker(s: Square, dir: Dir, more: Mask, fewer: Mask, t: int)
    requires
        forall|u: int| 0 <= u < 64 && u != t && fewer.has(u) ==> more.has(u),
        crate::attacks::sees(s, dir, more, t),
    ensures
        crate::attacks::sees(s, dir, fewer, t),
{
    broadcast use group_bit_facts;

    let r = ray(s, dir);
    assert forall|u: int|
        0 <= u < 64 && (if dir.ascends() {
            u < t
        } else {
            u > t
        }) implies !(#[trigger] r.has(u) && (Mask(0).has(u) || fewer.has(u))) by {
        if r.has(u) && fewer.has(u) {
            assert(more.has(u));
            assert(r.has(u) && (Mask(0).has(u) || more.has(u)));
        }
    }
}

/// A piece that attacks a square attacks it still when pieces are taken
/// off the other squares.
pub proof fn lemma_attacks_weaker(
    kind: Piece,
    color: Color,
    s: Square,
    more: Mask,
    fewer: Mask,
    t: int,
)
    requires
        forall|u: int| 0 <= u < 64 && u != t && fewer.has(u) ==> more.has(u),
        crate::attacks::attacks(kind, color, s, more, t),
    ensures
        crate::attacks::attacks(kind, color, s, fewer, t),
{
    if crate::attacks::sees(s, Dir::North, more, t) {
        lemma_sees_weaker(s, Dir::North, more, fewer, t);
    }
    if crate::attacks::sees(s, Dir::East, more, t) {
        lemma_sees_weaker(s, Dir::East, more, fewer, t);
    }
    if crate::attacks::sees(s, Dir::South, more, t) {
        lemma_sees_weaker(s, Dir::South, more, fewer, t);
    }
    if crate::attacks::sees(s, Dir::West, more, t) {
        lemma_sees_weaker(s, Dir::West, more, fewer, t);
    }
    if crate::attacks::sees(s, Dir::NorthWest, more, t) {
        lemma_sees_weaker(s, Dir::NorthWest, more, fewer, t);
    }
    if crate::attacks::sees(s, Dir::NorthEast, more, t) {
        lemma_sees_weaker(s, Dir::NorthEast, more, fewer, t);
    }
    if crate::attacks::sees(s, Dir::SouthEast, more, t) {
        lemma_sees_weaker(s, Dir::SouthEast, more, fewer, t);
    }
    if crate::attacks::sees(s, Dir::SouthWest, more, t) {
        lemma_sees_weaker(s, Dir::SouthWest, more, fewer, t);
    }
}

impl BitBoard {
    /// The squares that the sides stand on after a move that does not
    /// castle: the moving side where it stood, but for the square that
    /// the piece has left and with the square that it has gone to; the
    /// other side where it stood, but for the square of the captured
    /// piece.
    #[verifier::rlimit(50)]
    pub proof fn lemma_after_occupancy(self, m: Move, u: int)
        requires
            self.valid(),
            self.generated(m),
            m.castling.is_none(),
            0 <= u < 64,
        ensures
            self.active_after(m).as_mask_spec().has(u) <==> ((self.mover().as_mask_spec().has(u)
                && u != m.from_to.from@) || u == m.from_to.to@),
            self.passive_after(m).as_mask_spec().has(u) <==> (self.waiter().as_mask_spec().has(u)
                && !(m.capture matches Some((sq, _)) && u == sq@)),
    {
        self.lemma_after(m);
        self.lemma_lands_well(m);
        let act = self.active_after(m);
        let pas = self.passive_after(m);
        let piece = m.color_and_piece.piece_spec();
        act.lemma_as_mask_has(u);
        pas.lemma_as_mask_has(u);
        self.mover().lemma_as_mask_has(u);
        self.waiter().lemma_as_mask_has(u);
        assert(self.mover().disjoint() && self.waiter().disjoint());
        let from = m.from_to.from@;
        let to = m.from_to.to@;
        let arrived = match m.promotion {
            Some(pk) => pk,
            None => piece,
        };
        let left = match m.promotion {
            Some(_) => Piece::Pawn,
            None => piece,
        };
        if act.as_mask_spec().has(u) {
            let k = choose|k: Piece| #[trigger] act.piece_mask_spec(k).has(u);
            assert(self.mover_has_after(m, k, u));
            if u == from && u != to {
                assert(self.mover().piece_mask_spec(k).has(u));
                assert(self.mover().piece_mask_spec(left).has(u));
                assert(k != left);
                assert(false);
            }
        }
        if (self.mover().as_mask_spec().has(u) && u != from) || u == to {
            if u == to {
                assert(self.mover_has_after(m, arrived, u));
                assert(act.piece_mask_spec(arrived).has(u));
            } else {
                let k = choose|k: Piece| #[trigger] self.mover().piece_mask_spec(k).has(u);
                assert(self.mover_has_after(m, k, u));
                assert(act.piece_mask_spec(k).has(u));
            }
        }
        if pas.as_mask_spec().has(u) {
            let k = choose|k: Piece| #[trigger] pas.piece_mask_spec(k).has(u);
            assert(self.waiter_has_after(m, k, u));
            match m.capture {
                Some((sq, ck)) => {
                    if u == sq@ {
                        assert(self.waiter().piece_mask_spec(k).has(u));
                        assert(self.waiter().piece_mask_spec(ck).has(u));
                        assert(false);
                    }
                },
                None => {},
            }
        }
        if self.waiter().as_mask_spec().has(u) && !(m.capture matches Some((sq, _)) && u == sq@) {
            let k = choose|k: Piece| #[trigger] self.waiter().piece_mask_spec(k).has(u);
            assert(self.waiter_has_after(m, k, u));
            assert(pas.piece_mask_spec(k).has(u));
        }
    }

    /// No move of the generator that does not castle leaves the king of
    /// the side that made it attacked.
    #[verifier::rlimit(50)]
    pub proof fn lemma_stays_quiet(self, m: Move)
        requires
            self.valid(),
            self.generated(m),
            m.castling.is_none(),
        ensures
            !self.apply_spec(m).is_in_check_spec(self.metadata.to_move),
    {
        broadcast use group_bit_facts;

        self.lemma_after(m);
        self.lemma_lands_well(m);
        self.lemma_no_king_capture(m);
        let color = self.metadata.to_move;
        let other = color.other_spec();
        let after = self.apply_spec(m);
        let act = self.active_after(m);
        let pas = self.passive_after(m);
        let from = m.from_to.from;
        let to = m.from_to.to;
        let a = self.mover().as_mask_spec();
        let kings = self.mover().kings.0;
        let waiter = self.waiter();
        let occ = act.as_mask_spec();
        let threats = pas.threats_spec(other, occ, None);
        let hit = act.kings.0.0 & threats.0;
        if hit != 0 {
            crate::bits::lemma_lowest(hit);
            let t = crate::bits::lowest(hit);
            assert(act.kings.0.has(t) && threats.has(t));
            assert(act.piece_mask_spec(Piece::King).has(t) <==> self.mover_has_after(
                m,
                Piece::King,
                t,
            ));
            assert forall|u: int| 0 <= u < 64 implies (occ.has(u) <==> ((a.has(u) && u != from@)
                || u == to@)) && (pas.as_mask_spec().has(u) <==> (waiter.as_mask_spec().has(u) && !(
            m.capture matches Some((sq, _)) && u == sq@))) by {
                self.lemma_after_occupancy(m, u);
            }
            pas.lemma_threats_has(other, occ, None, t);
            let (kind, s) = choose|kind: Piece, s: int|
                0 <= s < 64 && pas.attackers(kind, None).has(s) && #[trigger] crate::attacks::attacks(
                    kind,
                    other,
                    Square::of(s),
                    pas.blocking_spec(occ, None),
                    t,
                );
            let more = pas.blocking_spec(occ, None);
            assert(pas.piece_mask_spec(kind).has(s) <==> self.waiter_has_after(m, kind, s));
            assert(waiter.piece_mask_spec(kind).has(s));
            if m.color_and_piece.piece_spec() == Piece::King {
                // the king has stepped to the square
                assert(self.king_step(m));
                if t != to@ {
                    lemma_count_one(kings, from@, t);
                }
                let stay = Mask(a.0 ^ kings.0);
                let fewer = waiter.blocking_spec(stay, None);
                assert forall|u: int| 0 <= u < 64 && u != t && fewer.has(u) implies more.has(
                    u,
                ) by {
                    self.mover().lemma_as_mask_has(u);
                    if kings.has(u) {
                        lemma_count_one(kings, from@, u);
                    }
                    match m.capture {
                        Some((sq, _)) => {
                            assert(sq == to);
                        },
                        None => {},
                    }
                }
                lemma_attacks_weaker(kind, other, Square::of(s), more, fewer, t);
                assert(waiter.attackers(kind, None).has(s));
                waiter.lemma_threats_has(other, stay, None, t);
                assert(waiter.attacked(other, stay, None, t));
                assert(false);
            } else {
                // the king has stayed where it was
                assert(kings.has(t));
                let moved = Mask(a.0 ^ m.from_to.as_mask_spec().0);
                let fewer = waiter.blocking_spec(moved, m.capture);
                assert forall|u: int| 0 <= u < 64 && u != t && fewer.has(u) implies more.has(
                    u,
                ) by {}
                lemma_attacks_weaker(kind, other, Square::of(s), more, fewer, t);
                assert(waiter.attackers(kind, m.capture).has(s));
                waiter.lemma_threats_has(other, moved, m.capture, t);
                assert(waiter.attacked(other, moved, m.capture, t));
                let seen = waiter.threats_spec(other, moved, m.capture);
                assert(bit(seen.0 & kings.0, t));
                crate::bits::lemma_bit_nonzero(seen.0 & kings.0, t);
                assert(self.exposes_king(m));
                assert(false);
            }
        }
    }
}

/// A sliding piece that sees neither where the king stands nor where it
/// goes in castling does not see where it has gone once the king and the
/// rook have made their steps.
#[verifier::rlimit(50)]
pub proof fn lemma_castled_unseen(
    s: Square,
    dir: Dir,
    before: Mask,
    after: Mask,
    kf: int,
    kt: int,
    rf: int,
    rt: int,
)
    requires
        s.on_board(),
        0 <= kf < 64 && 0 <= kt < 64 && 0 <= rf < 64 && 0 <= rt < 64,
        kf / 8 == kt / 8 && kf / 8 == rf / 8,
        rf % 8 == 0 || rf % 8 == 7,
        rf < kf ==> kt < kf,
        rf > kf ==> kt > kf,
        kf != kt && kf != rf && kt != rf,
        forall|u: int| 0 <= u < 64 && u != kf && u != rf && before.has(u) ==> after.has(u),
        before.has(kf),
        before.has(rf),
        !crate::attacks::sees(s, dir, before, kf),
        !crate::attacks::sees(s, dir, before, kt),
    ensures
        !crate::attacks::sees(s, dir, after, kt),
{
    broadcast use group_bit_facts;

    let r = ray(s, dir);
    if crate::attacks::sees(s, dir, after, kt) {
        // a piece stood before the square, and it has gone
        let u = choose|u: int|
            0 <= u < 64 && (if dir.ascends() {
                u < kt
            } else {
                u > kt
            }) && #[trigger] r.has(u) && (Mask(0).has(u) || before.has(u));
        assert(!(r.has(u) && (Mask(0).has(u) || after.has(u))));
        if u == kf {
            let w = choose|w: int|
                0 <= w < 64 && (if dir.ascends() {
                    w < kf
                } else {
                    w > kf
                }) && #[trigger] r.has(w) && (Mask(0).has(w) || before.has(w));
            assert(!(r.has(w) && (Mask(0).has(w) || after.has(w))));
            assert(w == rf);
            assert(false);
        } else {
            assert(u == rf);
            lemma_ray_along_rank(s, dir, rf, kt);
            assert(false);
        }
    }
}

impl BitBoard {
    /// No castling that the generator makes leaves the king attacked.
    #[verifier::rlimit(50)]
    pub proof fn lemma_castling_stays_quiet(self, m: Move)
        requires
            self.valid(),
            self.castling_move(m),
        ensures
            !self.apply_spec(m).is_in_check_spec(self.metadata.to_move),
    {
        broadcast use group_bit_facts;

        assert(self.generated(m));
        self.lemma_after(m);
        self.lemma_lands_well(m);
        self.lemma_castling_lands(m);
        let color = self.metadata.to_move;
        let other = color.other_spec();
        let rank = color.starting_rank_spec();
        let act = self.active_after(m);
        let pas = self.passive_after(m);
        let a = self.mover().as_mask_spec();
        let kings = self.mover().kings.0;
        let waiter = self.waiter();
        let side = m.castling.unwrap();
        let detail = match side {
            CastlingSide::OOO => self.metadata.castling_details.ooo,
            CastlingSide::OO => self.metadata.castling_details.oo,
        };
        let kf = m.from_to.from@;
        let kt = m.from_to.to@;
        let step = self.rook_step(m).unwrap();
        let rf = step.from@;
        let rt = step.to@;
        lemma_square_of(8 * rank.ix() + detail.king_move.from.ix());
        lemma_square_of(8 * rank.ix() + detail.king_move.to.ix());
        lemma_square_of(8 * rank.ix() + detail.rook_move.from.ix());
        lemma_square_of(8 * rank.ix() + detail.rook_move.to.ix());
        assert(detail.sound() && detail.inward());
        assert(pas == waiter);
        let occ = act.as_mask_spec();
        let threats = pas.threats_spec(other, occ, None);
        let hit = act.kings.0.0 & threats.0;
        let seen = waiter.threats_spec(other, a, None);
        let path = kings.0 | rank_word(rank.ix(), detail.king_mask);
        lemma_rank_word_has(rank.ix(), detail.king_mask, kt);
        assert(bit(path, kf) && bit(path, kt));
        assert(!bit(path & seen.0, kf) && !bit(path & seen.0, kt));
        waiter.lemma_threats_has(other, a, None, kf);
        waiter.lemma_threats_has(other, a, None, kt);
        if hit != 0 {
            crate::bits::lemma_lowest(hit);
            let t = crate::bits::lowest(hit);
            assert(act.kings.0.has(t) && threats.has(t));
            assert(act.piece_mask_spec(Piece::King).has(t) <==> self.mover_has_after(
                m,
                Piece::King,
                t,
            ));
            if t != kt {
                lemma_count_one(kings, kf, t);
            }
            pas.lemma_threats_has(other, occ, None, t);
            let (kind, s) = choose|kind: Piece, s: int|
                0 <= s < 64 && pas.attackers(kind, None).has(s) && #[trigger] crate::attacks::attacks(
                    kind,
                    other,
                    Square::of(s),
                    pas.blocking_spec(occ, None),
                    t,
                );
            let sq = Square::of(s);
            lemma_square_of(s);
            let more = pas.blocking_spec(occ, None);
            let less = waiter.blocking_spec(a, None);
            self.mover().lemma_as_mask_has(kf);
            self.mover().lemma_as_mask_has(rf);
            assert forall|u: int| 0 <= u < 64 && u != kf && u != rf && less.has(u) implies more.has(
                u,
            ) by {
                act.lemma_as_mask_has(u);
                self.mover().lemma_as_mask_has(u);
                if a.has(u) {
                    let k = choose|k: Piece| #[trigger] self.mover().piece_mask_spec(k).has(u);
                    assert(self.mover_has_after(m, k, u));
                    assert(act.piece_mask_spec(k).has(u));
                }
            }
            assert(waiter.attackers(kind, None).has(s));
            assert(!crate::attacks::attacks(kind, other, sq, less, kf));
            assert(!crate::attacks::attacks(kind, other, sq, less, kt));
            if kind == Piece::Rook || kind == Piece::Queen {
                lemma_castled_unseen(sq, Dir::North, less, more, kf, kt, rf, rt);
                lemma_castled_unseen(sq, Dir::East, less, more, kf, kt, rf, rt);
                lemma_castled_unseen(sq, Dir::South, less, more, kf, kt, rf, rt);
                lemma_castled_unseen(sq, Dir::West, less, more, kf, kt, rf, rt);
            }
            if kind == Piece::Bishop || kind == Piece::Queen {
                lemma_castled_unseen(sq, Dir::NorthWest, less, more, kf, kt, rf, rt);
                lemma_castled_unseen(sq, Dir::NorthEast, less, more, kf, kt, rf, rt);
                lemma_castled_unseen(sq, Dir::SouthEast, less, more, kf, kt, rf, rt);
                lemma_castled_unseen(sq, Dir::SouthWest, less, more, kf, kt, rf, rt);
            }
            assert(false);
        }
    }

    /// What a legal move makes of a position as it arises in play is a
    /// position as it arises in play.
    pub proof fn lemma_apply_keeps_valid(self, m: Move)
        requires
            self.valid(),
            self.legal_moves().contains(m),
        ensures
            self.apply_spec(m).valid(),
    {
        self.lemma_moves_generated();
        let i = choose|i: int| 0 <= i < self.legal_moves().len() && self.legal_moves()[i] == m;
        assert(self.generated(self.legal_moves()[i]));
        self.lemma_after(m);
        self.lemma_stays_apart(m);
        self.lemma_stays_one_king(m);
        self.lemma_stays_castling_sound(m);
        self.lemma_stays_en_passant_sound(m);
        if m.castling.is_some() {
            assert(self.castling_move(m));
            self.lemma_castling_stays_quiet(m);
        } else {
            self.lemma_stays_quiet(m);
        }
        self.lemma_lands_well(m);
    }

    /// No legal move of a position as it arises in play leaves the king
    /// of the side that makes it attacked.
    pub proof fn lemma_legal_moves_keep_king_safe(self, m: Move)
        requires
            self.valid(),
            self.legal_moves().contains(m),
        ensures
            !self.apply_spec(m).is_in_check_spec(self.metadata.to_move),
    {
        self.lemma_apply_keeps_valid(m);
        self.lemma_moves_generated();
        let i = choose|i: int| 0 <= i < self.legal_moves().len() && self.legal_moves()[i] == m;
        assert(self.generated(self.legal_moves()[i]));
        self.lemma_after(m);
    }
}

} // verus!
