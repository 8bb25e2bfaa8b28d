//! How many legal moves a position has, counted piece by piece, and that
//! the position seen from the other side has as many.

use vstd::prelude::*;
use crate::bits::{group_bit_facts, lemma_bit_nonzero, lemma_lowest, lowest};
use crate::board::BitBoard;
use crate::castling::CastlingDetail;
use crate::enums::{Color, ColorPiece, Piece};
use crate::geometry::lemma_pawn_pushes;
use crate::half::HalfBitBoard;
use crate::masks::{lemma_mask_equal, lemma_mirror_has, lemma_rank_word_has, rank_word, Mask};
use crate::mirror::lemma_flipped;
use crate::moves::{Move, ProtoMove};
use crate::pieces::kings::{castling_open, Kings};
use crate::pieces::pawns::{
    capture_dests, capture_step, forward, pawn_attacks, pawn_from_step, pawn_pushes,
    promotion_rank_spec, push_dests, push_step, EnPassant, Pawns,
};
use crate::pieces::{
    lemma_slide_word, plain_dests, plain_from_step, plain_moves_onto, plain_step, slide_reach,
    unfiltered_step,
};
use crate::squares::{lemma_square_of, Square};
use crate::sums::{flip, lemma_flip_twice, lemma_fold_len, lemma_sum_mirrored, sum_over};
use crate::symmetry::{
    lemma_exposure_flipped, lemma_king_moves_flipped, lemma_meet_flipped, lemma_pawn_flipped,
    lemma_plain_dests_flipped,
};

verus! {

/// One for a step that does not leave the king attacked, none for one
/// that does.
pub open spec fn plain_to_count(
    cp: ColorPiece,
    from: Square,
    a: Mask,
    kings: Kings,
    passive: HalfBitBoard,
) -> spec_fn(int) -> int {
    |to: int|
        if (ProtoMove { from, to: Square::of(to) }).makes_king_checked_spec(
            a,
            kings,
            passive.capture_at(Square::of(to)),
            passive,
            cp.color_spec().other_spec(),
        ) {
            0int
        } else {
            1int
        }
}

/// The number of legal moves of a queen, a rook, a bishop or a knight
/// on a square.
pub open spec fn plain_from_count(
    kind: Piece,
    color: Color,
    a: Mask,
    pm: Mask,
    passive: HalfBitBoard,
    kings: Kings,
) -> spec_fn(int) -> int {
    |from: int|
        sum_over(
            plain_dests(kind, Square::of(from), a, pm),
            plain_to_count(ColorPiece::of(color, kind), Square::of(from), a, kings, passive),
        )
}

/// The moves that the queens, the rooks, the bishops or the knights add
/// to a list are as many as the legal moves of each.
pub proof fn lemma_plain_len(
    kind: Piece,
    pieces: Mask,
    color: Color,
    a: Mask,
    pm: Mask,
    passive: HalfBitBoard,
    kings: Kings,
    acc: Seq<Move>,
)
    ensures
        plain_moves_onto(kind, pieces, color, a, pm, passive, kings, acc).len() == acc.len()
            + sum_over(pieces, plain_from_count(kind, color, a, pm, passive, kings)),
{
    let cp = ColorPiece::of(color, kind);
    let outer = plain_from_step(kind, color, a, pm, passive, kings);
    let c = plain_from_count(kind, color, a, pm, passive, kings);
    assert forall|acc2: Seq<Move>, s: int| 0 <= s < 64 implies (#[trigger] outer(acc2, s)).len()
        == acc2.len() + c(s) by {
        let sq = Square::of(s);
        let inner = plain_step(cp, sq, a, kings, passive);
        let d = plain_to_count(cp, sq, a, kings, passive);
        assert forall|acc3: Seq<Move>, t: int| 0 <= t < 64 implies (#[trigger] inner(
            acc3,
            t,
        )).len() == acc3.len() + d(t) by {}
        lemma_fold_len(plain_dests(kind, sq, a, pm), 64, acc2, inner, d);
    }
    lemma_fold_len(pieces, 64, acc, outer, c);
}

/// The legal moves of the queens, the rooks, the bishops or the knights
/// are as many seen from the other side.
#[verifier::rlimit(50)]
pub proof fn lemma_plain_count_mirrored(
    kind: Piece,
    pieces: Mask,
    color: Color,
    a: Mask,
    pm: Mask,
    passive: HalfBitBoard,
    kings: Kings,
)
    ensures
        sum_over(
            pieces.mirror_spec(),
            plain_from_count(
                kind,
                color.other_spec(),
                a.mirror_spec(),
                pm.mirror_spec(),
                passive.mirrored(),
                Kings(kings.0.mirror_spec()),
            ),
        ) == sum_over(pieces, plain_from_count(kind, color, a, pm, passive, kings)),
{
    let color2 = color.other_spec();
    let a2 = a.mirror_spec();
    let pm2 = pm.mirror_spec();
    let passive2 = passive.mirrored();
    let kings2 = Kings(kings.0.mirror_spec());
    let cp = ColorPiece::of(color, kind);
    let cp2 = ColorPiece::of(color2, kind);
    let g = plain_from_count(kind, color, a, pm, passive, kings);
    let k = plain_from_count(kind, color2, a2, pm2, passive2, kings2);
    assert forall|s: int| 0 <= s < 64 && pieces.has(s) implies #[trigger] k(flip(s)) == g(s) by {
        let sq = Square::of(s);
        lemma_square_of(s);
        lemma_flip_twice(s);
        lemma_square_of(flip(s));
        lemma_flipped(sq);
        assert(sq.flipped() == Square::of(flip(s)));
        lemma_plain_dests_flipped(kind, sq, a, pm);
        let dests = plain_dests(kind, sq, a, pm);
        let d = plain_to_count(cp, sq, a, kings, passive);
        let d2 = plain_to_count(cp2, sq.flipped(), a2, kings2, passive2);
        assert forall|t: int| 0 <= t < 64 && dests.has(t) implies #[trigger] d2(flip(t)) == d(
            t,
        ) by {
            let to = Square::of(t);
            lemma_square_of(t);
            lemma_flip_twice(t);
            lemma_square_of(flip(t));
            lemma_flipped(to);
            assert(to.flipped() == Square::of(flip(t)));
            passive.lemma_capture_at_mirrored(to);
            passive.lemma_capture_at(to);
            lemma_exposure_flipped(
                ProtoMove { from: sq, to },
                a,
                kings,
                passive.capture_at(to),
                passive,
                color2,
            );
        }
        lemma_sum_mirrored(dests, d, d2);
    }
    lemma_sum_mirrored(pieces, g, k);
}

/// The number of moves that a pawn's step gives: four on the last rank,
/// one elsewhere.
pub open spec fn promo_count(color: Color, to: Square) -> int {
    if to.rank_spec() == promotion_rank_spec(color) {
        4
    } else {
        1
    }
}

/// The number of moves that a push to a square gives.
pub open spec fn push_count(color: Color, from: Square, a: Mask, kings: Kings, passive: HalfBitBoard) -> spec_fn(
    int,
) -> int {
    |to: int|
        if (ProtoMove { from, to: Square::of(to) }).makes_king_checked_spec(
            a,
            kings,
            None,
            passive,
            color.other_spec(),
        ) {
            0int
        } else {
            promo_count(color, Square::of(to))
        }
}

/// The number of moves that a capture on a square gives.
pub open spec fn capture_count(
    color: Color,
    from: Square,
    a: Mask,
    kings: Kings,
    passive: HalfBitBoard,
) -> spec_fn(int) -> int {
    |to: int|
        if passive.capture_at(Square::of(to)).is_none() || (ProtoMove {
            from,
            to: Square::of(to),
        }).makes_king_checked_spec(
            a,
            kings,
            passive.capture_at(Square::of(to)),
            passive,
            color.other_spec(),
        ) {
            0int
        } else {
            promo_count(color, Square::of(to))
        }
}

/// One if the capture in passing is open to a pawn and does not leave
/// the king attacked.
pub open spec fn passing_count(
    color: Color,
    from: Square,
    a: Mask,
    kings: Kings,
    passive: HalfBitBoard,
    en_passant: Option<EnPassant>,
) -> int {
    match en_passant {
        None => 0,
        Some(ep) => if pawn_attacks(from, forward(color)).has(ep.to@) && !(ProtoMove {
            from,
            to: ep.to,
        }).makes_king_checked_spec(
            a,
            kings,
            Some((ep.capture, Piece::Pawn)),
            passive,
            color.other_spec(),
        ) {
            1
        } else {
            0
        },
    }
}

/// The number of legal moves of a pawn on a square.
pub open spec fn pawn_from_count(
    color: Color,
    a: Mask,
    pm: Mask,
    passive: HalfBitBoard,
    en_passant: Option<EnPassant>,
    kings: Kings,
) -> spec_fn(int) -> int {
    |from: int|
        sum_over(
            push_dests(color, Square::of(from), a, pm),
            push_count(color, Square::of(from), a, kings, passive),
        ) + sum_over(
            capture_dests(color, Square::of(from), pm),
            capture_count(color, Square::of(from), a, kings, passive),
        ) + passing_count(color, Square::of(from), a, kings, passive, en_passant)
}

/// The moves that the pawns add to a list are as many as the legal moves
/// of each.
#[verifier::rlimit(50)]
pub proof fn lemma_pawns_len(
    pawns: Pawns,
    color: Color,
    a: Mask,
    pm: Mask,
    passive: HalfBitBoard,
    en_passant: Option<EnPassant>,
    kings: Kings,
    acc: Seq<Move>,
)
    ensures
        pawns.moves_onto(color, a, pm, passive, en_passant, kings, acc).len() == acc.len()
            + sum_over(pawns.0, pawn_from_count(color, a, pm, passive, en_passant, kings)),
{
    let cp = ColorPiece::of(color, Piece::Pawn);
    let outer = pawn_from_step(color, a, pm, passive, en_passant, kings);
    let c = pawn_from_count(color, a, pm, passive, en_passant, kings);
    assert forall|acc2: Seq<Move>, s: int| 0 <= s < 64 implies (#[trigger] outer(acc2, s)).len()
        == acc2.len() + c(s) by {
        let sq = Square::of(s);
        let push = push_step(color, sq, a, kings, passive);
        let pc = push_count(color, sq, a, kings, passive);
        assert forall|acc3: Seq<Move>, t: int| 0 <= t < 64 implies (#[trigger] push(acc3, t)).len()
            == acc3.len() + pc(t) by {}
        let pushes = push_dests(color, sq, a, pm);
        lemma_fold_len(pushes, 64, acc2, push, pc);
        let pushed = pushes.fold(64, acc2, push);
        let capture = capture_step(color, sq, a, kings, passive);
        let cc = capture_count(color, sq, a, kings, passive);
        assert forall|acc3: Seq<Move>, t: int| 0 <= t < 64 implies (#[trigger] capture(
            acc3,
            t,
        )).len() == acc3.len() + cc(t) by {}
        let captures = capture_dests(color, sq, pm);
        lemma_fold_len(captures, 64, pushed, capture, cc);
    }
    lemma_fold_len(pawns.0, 64, acc, outer, c);
}

/// Two squares of a file come in the other order seen from the other
/// side.
pub proof fn lemma_file_order_flipped(u: int, t: int)
    requires
        0 <= u < 64,
        0 <= t < 64,
        u % 8 == t % 8,
    ensures
        u < t <==> flip(u) > flip(t),
{
    assert(u == 8 * (u / 8) + u % 8);
    assert(t == 8 * (t / 8) + t % 8);
}

/// The squares that a pawn may push to and capture on look the same
/// from the other side.
#[verifier::rlimit(50)]
pub proof fn lemma_pawn_dests_flipped(color: Color, s: Square, a: Mask, p: Mask)
    requires
        s.on_board(),
    ensures
        push_dests(color.other_spec(), s.flipped(), a.mirror_spec(), p.mirror_spec())
            == push_dests(color, s, a, p).mirror_spec(),
        capture_dests(color.other_spec(), s.flipped(), p.mirror_spec()) == capture_dests(
            color,
            s,
            p,
        ).mirror_spec(),
{
    broadcast use group_bit_facts;

    let color2 = color.other_spec();
    let dir = forward(color);
    let dir2 = forward(color2);
    let s2 = s.flipped();
    let a2 = a.mirror_spec();
    let q2 = p.mirror_spec();
    lemma_flipped(s);
    lemma_flip_twice(s@);
    let there = push_dests(color2, s2, a2, q2);
    let here = push_dests(color, s, a, p);
    let pushes = pawn_pushes(s, dir);
    let pushes2 = pawn_pushes(s2, dir2);
    let block = Mask(a.0 | p.0);
    let block2 = Mask(a2.0 | q2.0);
    assert forall|t: int| 0 <= t < 64 implies there.has(t) == here.mirror_spec().has(t) by {
        lemma_flip_twice(t);
        lemma_mirror_has(here, t);
        lemma_mirror_has(a, t);
        lemma_mirror_has(p, t);
        lemma_pawn_flipped(s, dir, t);
        lemma_slide_word(color2 == Color::White, pushes2, block2, Mask(0), t);
        lemma_slide_word(color == Color::White, pushes, block, Mask(0), flip(t));
        if pushes.has(flip(t)) {
            lemma_pawn_pushes(s, dir, flip(t));
            if slide_reach(color2 == Color::White, pushes2, block2, Mask(0), t) {
                assert forall|v: int|
                    0 <= v < 64 && (if color == Color::White {
                        v < flip(t)
                    } else {
                        v > flip(t)
                    }) implies !(#[trigger] pushes.has(v) && (block.has(v) || Mask(0).has(v))) by {
                    if pushes.has(v) && block.has(v) {
                        lemma_pawn_pushes(s, dir, v);
                        lemma_flip_twice(v);
                        lemma_pawn_flipped(s, dir, flip(v));
                        lemma_mirror_has(a, flip(v));
                        lemma_mirror_has(p, flip(v));
                        lemma_file_order_flipped(v, flip(t));
                        lemma_file_order_flipped(flip(t), v);
                        assert(pushes2.has(flip(v)) && block2.has(flip(v)));
                    }
                }
            }
            if slide_reach(color == Color::White, pushes, block, Mask(0), flip(t)) {
                assert forall|u: int|
                    0 <= u < 64 && (if color2 == Color::White {
                        u < t
                    } else {
                        u > t
                    }) implies !(#[trigger] pushes2.has(u) && (block2.has(u) || Mask(0).has(u))) by {
                    if pushes2.has(u) && block2.has(u) {
                        lemma_flip_twice(u);
                        lemma_pawn_flipped(s, dir, u);
                        lemma_pawn_pushes(s, dir, flip(u));
                        lemma_mirror_has(a, u);
                        lemma_mirror_has(p, u);
                        lemma_file_order_flipped(flip(u), flip(t));
                        lemma_file_order_flipped(flip(t), flip(u));
                        assert(pushes.has(flip(u)) && block.has(flip(u)));
                    }
                }
            }
        }
    }
    lemma_mask_equal(there, here.mirror_spec());
    let there_c = capture_dests(color2, s2, q2);
    let here_c = capture_dests(color, s, p);
    assert forall|t: int| 0 <= t < 64 implies there_c.has(t) == here_c.mirror_spec().has(t) by {
        lemma_flip_twice(t);
        lemma_mirror_has(here_c, t);
        lemma_mirror_has(p, t);
        lemma_pawn_flipped(s, dir, t);
    }
    lemma_mask_equal(there_c, here_c.mirror_spec());
}

/// A pawn promotes on a square where, seen from the other side, a pawn
/// of the other color does.
pub proof fn lemma_promo_count_flipped(color: Color, to: Square)
    requires
        to.on_board(),
    ensures
        promo_count(color.other_spec(), to.flipped()) == promo_count(color, to),
{
    lemma_flipped(to);
    lemma_flip_twice(to@);
}

/// The legal moves of the pawns are as many seen from the other side.
#[verifier::rlimit(50)]
pub proof fn lemma_pawn_count_mirrored(
    pawns: Mask,
    color: Color,
    a: Mask,
    pm: Mask,
    passive: HalfBitBoard,
    en_passant: Option<EnPassant>,
    kings: Kings,
)
    requires
        en_passant matches Some(ep) ==> ep.to.on_board() && ep.capture.on_board(),
    ensures
        sum_over(
            pawns.mirror_spec(),
            pawn_from_count(
                color.other_spec(),
                a.mirror_spec(),
                pm.mirror_spec(),
                passive.mirrored(),
                match en_passant {
                    Some(ep) => Some(ep.flipped()),
                    None => None,
                },
                Kings(kings.0.mirror_spec()),
            ),
        ) == sum_over(pawns, pawn_from_count(color, a, pm, passive, en_passant, kings)),
{
    let color2 = color.other_spec();
    let a2 = a.mirror_spec();
    let pm2 = pm.mirror_spec();
    let passive2 = passive.mirrored();
    let kings2 = Kings(kings.0.mirror_spec());
    let ep2 = match en_passant {
        Some(ep) => Some(ep.flipped()),
        None => None,
    };
    let g = pawn_from_count(color, a, pm, passive, en_passant, kings);
    let k = pawn_from_count(color2, a2, pm2, passive2, ep2, kings2);
    assert forall|s: int| 0 <= s < 64 && pawns.has(s) implies #[trigger] k(flip(s)) == g(s) by {
        let sq = Square::of(s);
        lemma_square_of(s);
        lemma_flip_twice(s);
        lemma_square_of(flip(s));
        lemma_flipped(sq);
        assert(sq.flipped() == Square::of(flip(s)));
        lemma_pawn_dests_flipped(color, sq, a, pm);
        // the pushes
        let pushes = push_dests(color, sq, a, pm);
        let pc = push_count(color, sq, a, kings, passive);
        let pc2 = push_count(color2, sq.flipped(), a2, kings2, passive2);
        assert forall|t: int| 0 <= t < 64 && pushes.has(t) implies #[trigger] pc2(flip(t)) == pc(
            t,
        ) by {
            let to = Square::of(t);
            lemma_square_of(t);
            lemma_flip_twice(t);
            lemma_square_of(flip(t));
            lemma_flipped(to);
            assert(to.flipped() == Square::of(flip(t)));
            lemma_promo_count_flipped(color, to);
            lemma_exposure_flipped(ProtoMove { from: sq, to }, a, kings, None, passive, color2);
        }
        lemma_sum_mirrored(pushes, pc, pc2);
        // the captures
        let captures = capture_dests(color, sq, pm);
        let cc = capture_count(color, sq, a, kings, passive);
        let cc2 = capture_count(color2, sq.flipped(), a2, kings2, passive2);
        assert forall|t: int|
            0 <= t < 64 && captures.has(t) implies #[trigger] cc2(flip(t)) == cc(t) by {
            let to = Square::of(t);
            lemma_square_of(t);
            lemma_flip_twice(t);
            lemma_square_of(flip(t));
            lemma_flipped(to);
            assert(to.flipped() == Square::of(flip(t)));
            lemma_promo_count_flipped(color, to);
            passive.lemma_capture_at_mirrored(to);
            passive.lemma_capture_at(to);
            lemma_exposure_flipped(
                ProtoMove { from: sq, to },
                a,
                kings,
                passive.capture_at(to),
                passive,
                color2,
            );
        }
        lemma_sum_mirrored(captures, cc, cc2);
        // the capture in passing
        match en_passant {
            Some(ep) => {
                lemma_flipped(ep.to);
                lemma_flipped(ep.capture);
                lemma_flip_twice(ep.to@);
                lemma_pawn_flipped(sq, forward(color), flip(ep.to@));
                lemma_exposure_flipped(
                    ProtoMove { from: sq, to: ep.to },
                    a,
                    kings,
                    Some((ep.capture, Piece::Pawn)),
                    passive,
                    color2,
                );
            },
            None => {},
        }
    }
    lemma_sum_mirrored(pawns, g, k);
}

/// One for each square.
pub open spec fn one() -> spec_fn(int) -> int {
    |t: int| 1int
}

/// The number of steps of a king on a square.
pub open spec fn king_from_count(kings: Kings, color: Color, a: Mask, passive: HalfBitBoard) -> spec_fn(
    int,
) -> int {
    |from: int| sum_over(kings.steps_spec(Square::of(from), a, passive, color), one())
}

/// One if the side has the right to a castling and the castling is
/// open.
pub open spec fn castling_count(
    kings: Kings,
    color: Color,
    a: Mask,
    pm: Mask,
    passive: HalfBitBoard,
    right: bool,
    detail: CastlingDetail,
) -> int {
    if right && castling_open(
        kings.0,
        color.starting_rank_spec(),
        detail,
        passive.threats_spec(color.other_spec(), a, None),
        Mask((pm.0 | a.0) & !kings.0.0),
    ) {
        1
    } else {
        0
    }
}

/// The moves that the kings add to a list are as many as their steps and
/// the castlings that are open.
pub proof fn lemma_kings_len(
    kings: Kings,
    color: Color,
    a: Mask,
    pm: Mask,
    passive: HalfBitBoard,
    rights: crate::castling::CastlingRights,
    details: crate::castling::CastlingDetails,
    acc: Seq<Move>,
)
    ensures
        kings.moves_onto(color, a, pm, passive, rights, details, acc).len() == acc.len()
            + sum_over(kings.0, king_from_count(kings, color, a, passive)) + castling_count(
            kings,
            color,
            a,
            pm,
            passive,
            rights.ooo,
            details.ooo,
        ) + castling_count(kings, color, a, pm, passive, rights.oo, details.oo),
{
    let cp = ColorPiece::of(color, Piece::King);
    let outer = kings.step_moves_spec(color, a, passive);
    let c = king_from_count(kings, color, a, passive);
    assert forall|acc2: Seq<Move>, s: int| 0 <= s < 64 implies (#[trigger] outer(acc2, s)).len()
        == acc2.len() + c(s) by {
        let sq = Square::of(s);
        let inner = unfiltered_step(cp, sq, passive);
        assert forall|acc3: Seq<Move>, t: int| 0 <= t < 64 implies (#[trigger] inner(
            acc3,
            t,
        )).len() == acc3.len() + one()(t) by {}
        lemma_fold_len(kings.steps_spec(sq, a, passive, color), 64, acc2, inner, one());
    }
    lemma_fold_len(kings.0, 64, acc, outer, c);
}

/// The squares that a king may step to look the same from the other
/// side.
#[verifier::rlimit(50)]
pub proof fn lemma_king_steps_flipped(
    kings: Kings,
    s: Square,
    color: Color,
    a: Mask,
    passive: HalfBitBoard,
)
    requires
        s.on_board(),
    ensures
        Kings(kings.0.mirror_spec()).steps_spec(
            s.flipped(),
            a.mirror_spec(),
            passive.mirrored(),
            color.other_spec(),
        ) == kings.steps_spec(s, a, passive, color).mirror_spec(),
{
    broadcast use group_bit_facts;

    let kings2 = Kings(kings.0.mirror_spec());
    let a2 = a.mirror_spec();
    let occ = Mask(a.0 ^ kings.0.0);
    let occ2 = Mask(a2.0 ^ kings2.0.0);
    assert forall|i: int| 0 <= i < 64 implies occ2.has(i) == occ.mirror_spec().has(i) by {
        lemma_mirror_has(occ, i);
        lemma_mirror_has(a, i);
        lemma_mirror_has(kings.0, i);
    }
    lemma_mask_equal(occ2, occ.mirror_spec());
    passive.lemma_threats_mirrored(color.other_spec(), occ, None);
    let seen = passive.threats_spec(color.other_spec(), occ, None);
    let there = kings2.steps_spec(s.flipped(), a2, passive.mirrored(), color.other_spec());
    let here = kings.steps_spec(s, a, passive, color);
    assert forall|t: int| 0 <= t < 64 implies there.has(t) == here.mirror_spec().has(t) by {
        lemma_mirror_has(here, t);
        lemma_mirror_has(a, t);
        lemma_mirror_has(seen, t);
        lemma_king_moves_flipped(s, t);
        lemma_flip_twice(t);
    }
    lemma_mask_equal(there, here.mirror_spec());
}

/// The steps of the kings are as many seen from the other side.
pub proof fn lemma_king_count_mirrored(kings: Kings, color: Color, a: Mask, passive: HalfBitBoard)
    ensures
        sum_over(
            kings.0.mirror_spec(),
            king_from_count(
                Kings(kings.0.mirror_spec()),
                color.other_spec(),
                a.mirror_spec(),
                passive.mirrored(),
            ),
        ) == sum_over(kings.0, king_from_count(kings, color, a, passive)),
{
    let kings2 = Kings(kings.0.mirror_spec());
    let g = king_from_count(kings, color, a, passive);
    let k = king_from_count(kings2, color.other_spec(), a.mirror_spec(), passive.mirrored());
    assert forall|s: int| 0 <= s < 64 && kings.0.has(s) implies #[trigger] k(flip(s)) == g(s) by {
        let sq = Square::of(s);
        lemma_square_of(s);
        lemma_flip_twice(s);
        lemma_square_of(flip(s));
        lemma_flipped(sq);
        assert(sq.flipped() == Square::of(flip(s)));
        lemma_king_steps_flipped(kings, sq, color, a, passive);
        let dests = kings.steps_spec(sq, a, passive, color);
        assert forall|t: int| 0 <= t < 64 && dests.has(t) implies #[trigger] one()(flip(t))
            == one()(t) by {}
        lemma_sum_mirrored(dests, one(), one());
    }
    lemma_sum_mirrored(kings.0, g, k);
}

/// A set is empty when it is empty seen from the other side.
pub proof fn lemma_mirrored_empty(m: Mask)
    ensures
        m.mirror_spec().0 == 0 <==> m.0 == 0,
{
    broadcast use group_bit_facts;

    if m.0 == 0 {
        assert forall|i: int| 0 <= i < 64 implies m.mirror_spec().has(i) == Mask(0).has(i) by {
            lemma_mirror_has(m, i);
        }
        lemma_mask_equal(m.mirror_spec(), Mask(0));
    } else {
        lemma_lowest(m.0);
        let i = lowest(m.0);
        lemma_flip_twice(i);
        lemma_mirror_has(m, flip(i));
        lemma_bit_nonzero(m.mirror_spec().0, flip(i));
    }
}

/// Whether a castling is open looks the same from the other side.
#[verifier::rlimit(50)]
pub proof fn lemma_castling_count_mirrored(
    kings: Kings,
    color: Color,
    a: Mask,
    pm: Mask,
    passive: HalfBitBoard,
    right: bool,
    detail: CastlingDetail,
)
    ensures
        castling_count(
            Kings(kings.0.mirror_spec()),
            color.other_spec(),
            a.mirror_spec(),
            pm.mirror_spec(),
            passive.mirrored(),
            right,
            detail,
        ) == castling_count(kings, color, a, pm, passive, right, detail),
{
    broadcast use group_bit_facts;

    let kings2 = kings.0.mirror_spec();
    let a2 = a.mirror_spec();
    let pm2 = pm.mirror_spec();
    let rank = color.starting_rank_spec();
    let rank2 = color.other_spec().starting_rank_spec();
    assert(rank2.ix() == 7 - rank.ix());
    passive.lemma_threats_mirrored(color.other_spec(), a, None);
    let seen = passive.threats_spec(color.other_spec(), a, None);
    let seen2 = passive.mirrored().threats_spec(color, a2, None);
    assert(seen2 == seen.mirror_spec());
    let unking = Mask((pm.0 | a.0) & !kings.0.0);
    let unking2 = Mask((pm2.0 | a2.0) & !kings2.0);
    let path = Mask(kings.0.0 | rank_word(rank.ix(), detail.king_mask));
    let path2 = Mask(kings2.0 | rank_word(rank2.ix(), detail.king_mask));
    let rooks = Mask(rank_word(rank.ix(), detail.rook_mask));
    let rooks2 = Mask(rank_word(rank2.ix(), detail.rook_mask));
    assert forall|i: int| 0 <= i < 64 implies unking2.has(i) == unking.mirror_spec().has(i)
        && path2.has(i) == path.mirror_spec().has(i) && rooks2.has(i) == rooks.mirror_spec().has(
        i,
    ) by {
        lemma_flip_twice(i);
        lemma_mirror_has(unking, i);
        lemma_mirror_has(path, i);
        lemma_mirror_has(rooks, i);
        lemma_mirror_has(pm, i);
        lemma_mirror_has(a, i);
        lemma_mirror_has(kings.0, i);
        lemma_rank_word_has(rank.ix(), detail.king_mask, flip(i));
        lemma_rank_word_has(rank2.ix(), detail.king_mask, i);
        lemma_rank_word_has(rank.ix(), detail.rook_mask, flip(i));
        lemma_rank_word_has(rank2.ix(), detail.rook_mask, i);
    }
    lemma_mask_equal(unking2, unking.mirror_spec());
    lemma_mask_equal(path2, path.mirror_spec());
    lemma_mask_equal(rooks2, rooks.mirror_spec());
    lemma_meet_flipped(path, seen);
    lemma_meet_flipped(path, unking);
    lemma_meet_flipped(rooks, unking);
    lemma_mirrored_empty(kings.0);
}

/// The empty set looks the same from the other side.
pub proof fn lemma_empty_mirrored()
    ensures
        Mask(0).mirror_spec() == Mask(0),
{
    broadcast use group_bit_facts;

    assert forall|i: int| 0 <= i < 64 implies Mask(0).mirror_spec().has(i) == Mask(0).has(i) by {
        lemma_mirror_has(Mask(0), i);
    }
    lemma_mask_equal(Mask(0).mirror_spec(), Mask(0));
}

impl BitBoard {
    /// The number of legal moves of a position, counted piece by piece.
    pub open spec fn move_count(self) -> int {
        let color = self.metadata.to_move;
        let active = self.mover();
        let passive = self.waiter();
        let a = active.as_mask_spec();
        let p = passive.as_mask_spec();
        let kings = active.kings;
        let rights = self.metadata.rights_of(color);
        let details = self.metadata.castling_details;
        sum_over(active.queens.0, plain_from_count(Piece::Queen, color, a, p, passive, kings))
            + sum_over(active.rooks.0, plain_from_count(Piece::Rook, color, a, p, passive, kings))
            + sum_over(
            active.bishops.0,
            plain_from_count(Piece::Bishop, color, a, p, passive, kings),
        ) + sum_over(
            active.knights.0,
            plain_from_count(Piece::Knight, color, a, Mask(0), passive, kings),
        ) + sum_over(
            active.pawns.0,
            pawn_from_count(color, a, p, passive, self.metadata.en_passant, kings),
        ) + sum_over(kings.0, king_from_count(kings, color, a, passive)) + castling_count(
            kings,
            color,
            a,
            p,
            passive,
            rights.ooo,
            details.ooo,
        ) + castling_count(kings, color, a, p, passive, rights.oo, details.oo)
    }

    /// The legal moves of a position are as many as the moves of its
    /// pieces counted one by one.
    pub proof fn lemma_move_count(self)
        ensures
            self.legal_moves().len() == self.move_count(),
    {
        let color = self.metadata.to_move;
        let active = self.mover();
        let passive = self.waiter();
        let a = active.as_mask_spec();
        let p = passive.as_mask_spec();
        let kings = active.kings;
        let acc = Seq::<Move>::empty();
        lemma_plain_len(Piece::Queen, active.queens.0, color, a, p, passive, kings, acc);
        let queens = plain_moves_onto(Piece::Queen, active.queens.0, color, a, p, passive, kings, acc);
        lemma_plain_len(Piece::Rook, active.rooks.0, color, a, p, passive, kings, queens);
        let rooks = plain_moves_onto(Piece::Rook, active.rooks.0, color, a, p, passive, kings, queens);
        lemma_plain_len(Piece::Bishop, active.bishops.0, color, a, p, passive, kings, rooks);
        let bishops = plain_moves_onto(
            Piece::Bishop,
            active.bishops.0,
            color,
            a,
            p,
            passive,
            kings,
            rooks,
        );
        lemma_plain_len(Piece::Knight, active.knights.0, color, a, Mask(0), passive, kings, bishops);
        let knights = plain_moves_onto(
            Piece::Knight,
            active.knights.0,
            color,
            a,
            Mask(0),
            passive,
            kings,
            bishops,
        );
        lemma_pawns_len(active.pawns, color, a, p, passive, self.metadata.en_passant, kings, knights);
        let pawns = active.pawns.moves_onto(
            color,
            a,
            p,
            passive,
            self.metadata.en_passant,
            kings,
            knights,
        );
        lemma_kings_len(
            kings,
            color,
            a,
            p,
            passive,
            self.metadata.rights_of(color),
            self.metadata.castling_details,
            pawns,
        );
    }

    /// A position seen from the other side, with the colors changed, has
    /// as many legal moves.
    #[verifier::rlimit(50)]
    pub proof fn lemma_mirrored_has_as_many_moves(self)
        requires
            self.metadata.en_passant matches Some(ep) ==> ep.to.on_board() && ep.capture.on_board(),
        ensures
            self.mirrored().legal_moves().len() == self.legal_moves().len(),
    {
        let there = self.mirrored();
        let color = self.metadata.to_move;
        let active = self.mover();
        let passive = self.waiter();
        let a = active.as_mask_spec();
        let p = passive.as_mask_spec();
        let kings = active.kings;
        let rights = self.metadata.rights_of(color);
        let details = self.metadata.castling_details;
        self.lemma_move_count();
        there.lemma_move_count();
        assert(there.mover() == active.mirrored());
        assert(there.waiter() == passive.mirrored());
        assert(there.metadata.rights_of(color.other_spec()) == rights);
        active.lemma_as_mask_mirrored();
        passive.lemma_as_mask_mirrored();
        lemma_empty_mirrored();
        lemma_plain_count_mirrored(Piece::Queen, active.queens.0, color, a, p, passive, kings);
        lemma_plain_count_mirrored(Piece::Rook, active.rooks.0, color, a, p, passive, kings);
        lemma_plain_count_mirrored(Piece::Bishop, active.bishops.0, color, a, p, passive, kings);
        lemma_plain_count_mirrored(
            Piece::Knight,
            active.knights.0,
            color,
            a,
            Mask(0),
            passive,
            kings,
        );
        lemma_pawn_count_mirrored(
            active.pawns.0,
            color,
            a,
            p,
            passive,
            self.metadata.en_passant,
            kings,
        );
        lemma_king_count_mirrored(kings, color, a, passive);
        lemma_castling_count_mirrored(kings, color, a, p, passive, rights.ooo, details.ooo);
        lemma_castling_count_mirrored(kings, color, a, p, passive, rights.oo, details.oo);
    }
}

} // verus!
