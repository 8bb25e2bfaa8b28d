//! That the generator leaves no move out: every move of a piece as the
//! rules have it is among the legal moves.

use vstd::prelude::*;
use crate::board::BitBoard;
use crate::castling::CastlingSide;
use crate::enums::{ColorPiece, Piece};
use crate::masks::Mask;
use crate::moves::Move;
use crate::pieces::kings::castling_of;
use crate::pieces::pawns::{
    capture_dests, capture_step, en_passant_onto, pawn_from_step, promotion_rank_spec,
    promotions_onto, push_dests, push_step,
};
use crate::pieces::{plain_dests, plain_from_step, plain_moves_onto, plain_step, unfiltered_step};
use crate::squares::{lemma_square_of_view, Square};

verus! {

/// Whether a step of a walk keeps every move that it is handed.
pub open spec fn keeps(f: spec_fn(Seq<Move>, int) -> Seq<Move>) -> bool {
    forall|acc: Seq<Move>, s: int, x: Move|
        acc.contains(x) ==> #[trigger] f(acc, s).contains(x)
}

/// A list with one more move holds the moves it held.
pub proof fn lemma_push_keeps(acc: Seq<Move>, m: Move, x: Move)
    requires
        acc.contains(x),
    ensures
        acc.push(m).contains(x),
{
    let i = choose|i: int| 0 <= i < acc.len() && acc[i] == x;
    assert(acc.push(m)[i] == x);
}

/// A list with one more move holds that move.
pub proof fn lemma_push_has(acc: Seq<Move>, m: Move)
    ensures
        acc.push(m).contains(m),
{
    assert(acc.push(m)[acc.len() as int] == m);
}

/// A walk whose steps keep what they are handed keeps what it starts
/// with.
pub proof fn lemma_fold_holds(
    m: Mask,
    n: int,
    init: Seq<Move>,
    f: spec_fn(Seq<Move>, int) -> Seq<Move>,
    x: Move,
)
    requires
        keeps(f),
        init.contains(x),
    ensures
        m.fold(n, init, f).contains(x),
    decreases n,
{
    if n > 0 {
        lemma_fold_holds(m, n - 1, init, f, x);
    }
}

/// A walk holds in the end what one of its steps adds.
pub proof fn lemma_fold_adds(
    m: Mask,
    n: int,
    init: Seq<Move>,
    f: spec_fn(Seq<Move>, int) -> Seq<Move>,
    s: int,
    x: Move,
)
    requires
        keeps(f),
        0 <= s < n,
        m.has(s),
        forall|acc: Seq<Move>| #[trigger] f(acc, s).contains(x),
    ensures
        m.fold(n, init, f).contains(x),
    decreases n,
{
    if s < n - 1 {
        lemma_fold_adds(m, n - 1, init, f, s, x);
    }
}

/// A move is the move of its parts.
pub proof fn lemma_move_equal(a: Move, b: Move)
    requires
        a.color_and_piece == b.color_and_piece,
        a.from_to == b.from_to,
        a.castling == b.castling,
        a.capture == b.capture,
        a.promotion == b.promotion,
    ensures
        a == b,
{
    broadcast use vstd::array::group_array_axioms;

    assert(a.align@ =~= b.align@);
    assert(a.align =~= b.align);
}

/// Appending a pawn's move or its promotions keeps what the list held
/// and adds each of them.
pub proof fn lemma_promotions(acc: Seq<Move>, mv: Move, x: Move)
    ensures
        acc.contains(x) ==> promotions_onto(acc, mv).contains(x),
        mv.from_to.to.rank_spec() != promotion_rank_spec(mv.color_and_piece.color_spec())
            ==> promotions_onto(acc, mv).contains(mv),
        mv.from_to.to.rank_spec() == promotion_rank_spec(mv.color_and_piece.color_spec()) ==> {
            &&& promotions_onto(acc, mv).contains(Move { promotion: Some(Piece::Queen), ..mv })
            &&& promotions_onto(acc, mv).contains(Move { promotion: Some(Piece::Rook), ..mv })
            &&& promotions_onto(acc, mv).contains(Move { promotion: Some(Piece::Bishop), ..mv })
            &&& promotions_onto(acc, mv).contains(Move { promotion: Some(Piece::Knight), ..mv })
        },
{
    let q = Move { promotion: Some(Piece::Queen), ..mv };
    let r = Move { promotion: Some(Piece::Rook), ..mv };
    let b = Move { promotion: Some(Piece::Bishop), ..mv };
    let n = Move { promotion: Some(Piece::Knight), ..mv };
    let a1 = acc.push(q);
    let a2 = a1.push(r);
    let a3 = a2.push(b);
    let a4 = a3.push(n);
    lemma_push_has(acc, mv);
    lemma_push_has(acc, q);
    lemma_push_has(a1, r);
    lemma_push_has(a2, b);
    lemma_push_has(a3, n);
    lemma_push_keeps(a1, r, q);
    lemma_push_keeps(a2, b, q);
    lemma_push_keeps(a3, n, q);
    lemma_push_keeps(a2, b, r);
    lemma_push_keeps(a3, n, r);
    lemma_push_keeps(a3, n, b);
    if acc.contains(x) {
        lemma_push_keeps(acc, mv, x);
        lemma_push_keeps(acc, q, x);
        lemma_push_keeps(a1, r, x);
        lemma_push_keeps(a2, b, x);
        lemma_push_keeps(a3, n, x);
    }
}

impl BitBoard {
    proof fn lemma_plain_keeps(self, kind: Piece)
        ensures
            keeps(
                plain_from_step(
                    kind,
                    self.metadata.to_move,
                    self.mover().as_mask_spec(),
                    if kind == Piece::Knight {
                        Mask(0)
                    } else {
                        self.waiter().as_mask_spec()
                    },
                    self.waiter(),
                    self.mover().kings,
                ),
            ),
            forall|from: Square|
                keeps(
                    #[trigger] plain_step(
                        ColorPiece::of(self.metadata.to_move, kind),
                        from,
                        self.mover().as_mask_spec(),
                        self.mover().kings,
                        self.waiter(),
                    ),
                ),
    {
        let color = self.metadata.to_move;
        let a = self.mover().as_mask_spec();
        let pm = if kind == Piece::Knight {
            Mask(0)
        } else {
            self.waiter().as_mask_spec()
        };
        let passive = self.waiter();
        let kings = self.mover().kings;
        let cp = ColorPiece::of(color, kind);
        assert forall|from: Square| keeps(#[trigger] plain_step(cp, from, a, kings, passive)) by {
            let inner = plain_step(cp, from, a, kings, passive);
            assert forall|acc: Seq<Move>, s: int, x: Move| acc.contains(x) implies #[trigger] inner(
                acc,
                s,
            ).contains(x) by {
                let m = Move::plain(cp, from, Square::of(s), passive.capture_at(Square::of(s)));
                lemma_push_keeps(acc, m, x);
            }
        }
        let outer = plain_from_step(kind, color, a, pm, passive, kings);
        assert forall|acc: Seq<Move>, s: int, x: Move| acc.contains(x) implies #[trigger] outer(
            acc,
            s,
        ).contains(x) by {
            let sq = Square::of(s);
            let inner = plain_step(cp, sq, a, kings, passive);
            lemma_fold_holds(plain_dests(kind, sq, a, pm), 64, acc, inner, x);
        }
    }

    /// Appending the moves of the queens, the rooks, the bishops or the
    /// knights keeps what the list held and adds each of their moves.
    #[verifier::rlimit(50)]
    proof fn lemma_plain_complete(self, kind: Piece, acc: Seq<Move>, x: Move)
        requires
            kind == Piece::Queen || kind == Piece::Rook || kind == Piece::Bishop || kind
                == Piece::Knight,
            acc.contains(x) || self.plain_move(kind, x),
        ensures
            plain_moves_onto(
                kind,
                self.mover().piece_mask_spec(kind),
                self.metadata.to_move,
                self.mover().as_mask_spec(),
                if kind == Piece::Knight {
                    Mask(0)
                } else {
                    self.waiter().as_mask_spec()
                },
                self.waiter(),
                self.mover().kings,
                acc,
            ).contains(x),
    {
        let color = self.metadata.to_move;
        let a = self.mover().as_mask_spec();
        let pm = if kind == Piece::Knight {
            Mask(0)
        } else {
            self.waiter().as_mask_spec()
        };
        let passive = self.waiter();
        let kings = self.mover().kings;
        let pieces = self.mover().piece_mask_spec(kind);
        let cp = ColorPiece::of(color, kind);
        let outer = plain_from_step(kind, color, a, pm, passive, kings);
        self.lemma_plain_keeps(kind);
        if acc.contains(x) {
            lemma_fold_holds(pieces, 64, acc, outer, x);
        } else {
            let from = x.from_to.from;
            let to = x.from_to.to;
            lemma_square_of_view(from);
            lemma_square_of_view(to);
            let inner = plain_step(cp, from, a, kings, passive);
            assert(keeps(inner));
            let dests = plain_dests(kind, from, a, pm);
            assert forall|acc2: Seq<Move>| #[trigger] outer(acc2, from@).contains(x) by {
                assert forall|acc3: Seq<Move>| #[trigger] inner(acc3, to@).contains(x) by {
                    let m = Move::plain(cp, from, to, passive.capture_at(to));
                    lemma_move_equal(m, x);
                    lemma_push_has(acc3, m);
                }
                lemma_fold_adds(dests, 64, acc2, inner, to@, x);
            }
            lemma_fold_adds(pieces, 64, acc, outer, from@, x);
        }
    }

    /// Appending the moves of the pawns keeps what the list held and adds
    /// each of their moves.
    #[verifier::rlimit(50)]
    proof fn lemma_pawns_complete(self, acc: Seq<Move>, x: Move)
        requires
            acc.contains(x) || self.pawn_move(x),
        ensures
            self.mover().pawns.moves_onto(
                self.metadata.to_move,
                self.mover().as_mask_spec(),
                self.waiter().as_mask_spec(),
                self.waiter(),
                self.metadata.en_passant,
                self.mover().kings,
                acc,
            ).contains(x),
    {
        let color = self.metadata.to_move;
        let a = self.mover().as_mask_spec();
        let pm = self.waiter().as_mask_spec();
        let passive = self.waiter();
        let kings = self.mover().kings;
        let pieces = self.mover().pawns.0;
        let cp = ColorPiece::of(color, Piece::Pawn);
        let ep = self.metadata.en_passant;
        let outer = pawn_from_step(color, a, pm, passive, ep, kings);
        // every step keeps what it is handed
        assert forall|sq: Square| keeps(#[trigger] push_step(color, sq, a, kings, passive)) by {
            let f = push_step(color, sq, a, kings, passive);
            assert forall|acc2: Seq<Move>, s: int, y: Move| acc2.contains(y) implies #[trigger] f(
                acc2,
                s,
            ).contains(y) by {
                lemma_promotions(acc2, Move::plain(cp, sq, Square::of(s), None), y);
            }
        }
        assert forall|sq: Square| keeps(#[trigger] capture_step(color, sq, a, kings, passive)) by {
            let f = capture_step(color, sq, a, kings, passive);
            assert forall|acc2: Seq<Move>, s: int, y: Move| acc2.contains(y) implies #[trigger] f(
                acc2,
                s,
            ).contains(y) by {
                lemma_promotions(
                    acc2,
                    Move::plain(cp, sq, Square::of(s), passive.capture_at(Square::of(s))),
                    y,
                );
            }
        }
        assert forall|acc2: Seq<Move>, s: int, y: Move| acc2.contains(y) implies #[trigger] outer(
            acc2,
            s,
        ).contains(y) by {
            let sq = Square::of(s);
            let pushed = push_dests(color, sq, a, pm).fold(
                64,
                acc2,
                push_step(color, sq, a, kings, passive),
            );
            lemma_fold_holds(
                push_dests(color, sq, a, pm),
                64,
                acc2,
                push_step(color, sq, a, kings, passive),
                y,
            );
            let captured = capture_dests(color, sq, pm).fold(
                64,
                pushed,
                capture_step(color, sq, a, kings, passive),
            );
            lemma_fold_holds(
                capture_dests(color, sq, pm),
                64,
                pushed,
                capture_step(color, sq, a, kings, passive),
                y,
            );
            match ep {
                Some(e) => {
                    lemma_push_keeps(
                        captured,
                        Move::plain(cp, sq, e.to, Some((e.capture, Piece::Pawn))),
                        y,
                    );
                },
                None => {},
            }
        }
        assert(keeps(outer));
        if acc.contains(x) {
            lemma_fold_holds(pieces, 64, acc, outer, x);
        } else {
            let from = x.from_to.from;
            let to = x.from_to.to;
            lemma_square_of_view(from);
            lemma_square_of_view(to);
            let pushes = push_dests(color, from, a, pm);
            let push = push_step(color, from, a, kings, passive);
            let captures = capture_dests(color, from, pm);
            let capture = capture_step(color, from, a, kings, passive);
            assert forall|acc2: Seq<Move>| #[trigger] outer(acc2, from@).contains(x) by {
                let pushed = pushes.fold(64, acc2, push);
                let captured = captures.fold(64, pushed, capture);
                let last = en_passant_onto(color, from, a, kings, passive, ep, captured);
                assert(outer(acc2, from@) == last);
                let bare = Move { promotion: None, ..x };
                assert(self.exposes_king(bare) == self.exposes_king(x));
                if pushes.has(to@) && x.capture.is_none() && self.promotes_well(x) {
                    assert forall|acc3: Seq<Move>| #[trigger] push(acc3, to@).contains(x) by {
                        let m = Move::plain(cp, from, to, None);
                        lemma_move_equal(m, bare);
                        lemma_promotions(acc3, m, x);
                        self.lemma_promoted(x, m);
                    }
                    lemma_fold_adds(pushes, 64, acc2, push, to@, x);
                    lemma_fold_holds(captures, 64, pushed, capture, x);
                    match ep {
                        Some(e) => {
                            lemma_push_keeps(
                                captured,
                                Move::plain(cp, from, e.to, Some((e.capture, Piece::Pawn))),
                                x,
                            );
                        },
                        None => {},
                    }
                } else if captures.has(to@) && x.capture.is_some() && x.capture
                    == passive.capture_at(to) && self.promotes_well(x) {
                    assert forall|acc3: Seq<Move>| #[trigger] capture(acc3, to@).contains(x) by {
                        let m = Move::plain(cp, from, to, passive.capture_at(to));
                        lemma_move_equal(m, bare);
                        lemma_promotions(acc3, m, x);
                        self.lemma_promoted(x, m);
                    }
                    lemma_fold_adds(captures, 64, pushed, capture, to@, x);
                    match ep {
                        Some(e) => {
                            lemma_push_keeps(
                                captured,
                                Move::plain(cp, from, e.to, Some((e.capture, Piece::Pawn))),
                                x,
                            );
                        },
                        None => {},
                    }
                } else {
                    let e = ep.unwrap();
                    let m = Move::plain(cp, from, e.to, Some((e.capture, Piece::Pawn)));
                    lemma_move_equal(m, x);
                    lemma_push_has(captured, m);
                }
            }
            lemma_fold_adds(pieces, 64, acc, outer, from@, x);
        }
    }

    /// A pawn move with its promotion is one of those that its move
    /// without one gives.
    proof fn lemma_promoted(self, x: Move, m: Move)
        requires
            self.promotes_well(x),
            x.color_and_piece == ColorPiece::of(self.metadata.to_move, Piece::Pawn),
            m == (Move { promotion: None, ..x }),
        ensures
            x == m || x == (Move { promotion: Some(Piece::Queen), ..m }) || x == (Move {
                promotion: Some(Piece::Rook),
                ..m
            }) || x == (Move { promotion: Some(Piece::Bishop), ..m }) || x == (Move {
                promotion: Some(Piece::Knight),
                ..m
            }),
            x == m <==> x.from_to.to.rank_spec() != promotion_rank_spec(
                m.color_and_piece.color_spec(),
            ),
    {
        lemma_move_equal(x, Move { promotion: x.promotion, ..m });
    }

    /// Appending the moves of the kings keeps what the list held and adds
    /// each of their steps and castlings.
    #[verifier::rlimit(50)]
    proof fn lemma_kings_complete(self, acc: Seq<Move>, x: Move)
        requires
            acc.contains(x) || self.king_step(x) || self.castling_move(x),
        ensures
            self.mover().kings.moves_onto(
                self.metadata.to_move,
                self.mover().as_mask_spec(),
                self.waiter().as_mask_spec(),
                self.waiter(),
                self.metadata.rights_of(self.metadata.to_move),
                self.metadata.castling_details,
                acc,
            ).contains(x),
    {
        let color = self.metadata.to_move;
        let a = self.mover().as_mask_spec();
        let pm = self.waiter().as_mask_spec();
        let passive = self.waiter();
        let kings = self.mover().kings;
        let cp = ColorPiece::of(color, Piece::King);
        let outer = kings.step_moves_spec(color, a, passive);
        assert forall|sq: Square| keeps(#[trigger] unfiltered_step(cp, sq, passive)) by {
            let f = unfiltered_step(cp, sq, passive);
            assert forall|acc2: Seq<Move>, s: int, y: Move| acc2.contains(y) implies #[trigger] f(
                acc2,
                s,
            ).contains(y) by {
                lemma_push_keeps(
                    acc2,
                    Move::plain(cp, sq, Square::of(s), passive.capture_at(Square::of(s))),
                    y,
                );
            }
        }
        assert forall|acc2: Seq<Move>, s: int, y: Move| acc2.contains(y) implies #[trigger] outer(
            acc2,
            s,
        ).contains(y) by {
            let sq = Square::of(s);
            lemma_fold_holds(
                kings.steps_spec(sq, a, passive, color),
                64,
                acc2,
                unfiltered_step(cp, sq, passive),
                y,
            );
        }
        assert(keeps(outer));
        let steps = kings.0.fold(64, acc, outer);
        let details = self.metadata.castling_details;
        let rights = self.metadata.rights_of(color);
        let ooo = castling_of(color, details.ooo, CastlingSide::OOO);
        let oo = castling_of(color, details.oo, CastlingSide::OO);
        let with_ooo = kings.castling_onto(
            color,
            a,
            pm,
            passive,
            rights.ooo,
            details.ooo,
            CastlingSide::OOO,
            steps,
        );
        if acc.contains(x) {
            lemma_fold_holds(kings.0, 64, acc, outer, x);
        } else if self.king_step(x) {
            let from = x.from_to.from;
            let to = x.from_to.to;
            lemma_square_of_view(from);
            lemma_square_of_view(to);
            let inner = unfiltered_step(cp, from, passive);
            let dests = kings.steps_spec(from, a, passive, color);
            assert forall|acc2: Seq<Move>| #[trigger] outer(acc2, from@).contains(x) by {
                assert forall|acc3: Seq<Move>| #[trigger] inner(acc3, to@).contains(x) by {
                    let m = Move::plain(cp, from, to, passive.capture_at(to));
                    lemma_move_equal(m, x);
                    lemma_push_has(acc3, m);
                }
                lemma_fold_adds(dests, 64, acc2, inner, to@, x);
            }
            lemma_fold_adds(kings.0, 64, acc, outer, from@, x);
        }
        if steps.contains(x) {
            lemma_push_keeps(steps, ooo, x);
        }
        lemma_push_has(steps, ooo);
        if with_ooo.contains(x) {
            lemma_push_keeps(with_ooo, oo, x);
        }
        lemma_push_has(with_ooo, oo);
    }

    /// The legal moves of a position are the moves of the pieces of the
    /// side to move as the rules have them, no more and no fewer.
    pub proof fn lemma_legal_moves_are_the_rules(self, m: Move)
        ensures
            self.legal_moves().contains(m) <==> self.generated(m),
    {
        if self.generated(m) {
            self.lemma_moves_complete(m);
        }
        if self.legal_moves().contains(m) {
            self.lemma_moves_generated();
            let i = choose|i: int| 0 <= i < self.legal_moves().len() && self.legal_moves()[i] == m;
            assert(self.generated(self.legal_moves()[i]));
        }
    }

    /// Every move of a piece of the side to move as the rules have it is
    /// among the legal moves: the moves that the generator makes are all
    /// of them.
    pub proof fn lemma_moves_complete(self, m: Move)
        requires
            self.generated(m),
        ensures
            self.legal_moves().contains(m),
    {
        self.lemma_moves_onto_complete(Seq::empty(), m);
    }

    /// Appending the legal moves keeps what the list held and adds every
    /// move of a piece of the side to move as the rules have it.
    pub proof fn lemma_moves_onto_complete(self, acc: Seq<Move>, m: Move)
        requires
            acc.contains(m) || self.generated(m),
        ensures
            self.moves_onto(acc).contains(m),
    {
        let color = self.metadata.to_move;
        let active = self.mover();
        let passive = self.waiter();
        let a = active.as_mask_spec();
        let p = passive.as_mask_spec();
        let kings = active.kings;
        if acc.contains(m) || self.plain_move(Piece::Queen, m) {
            self.lemma_plain_complete(Piece::Queen, acc, m);
        }
        let queens = plain_moves_onto(Piece::Queen, active.queens.0, color, a, p, passive, kings, acc);
        if queens.contains(m) || self.plain_move(Piece::Rook, m) {
            self.lemma_plain_complete(Piece::Rook, queens, m);
        }
        let rooks = plain_moves_onto(Piece::Rook, active.rooks.0, color, a, p, passive, kings, queens);
        if rooks.contains(m) || self.plain_move(Piece::Bishop, m) {
            self.lemma_plain_complete(Piece::Bishop, rooks, m);
        }
        let bishops = plain_moves_onto(
            Piece::Bishop,
            active.bishops.0,
            color,
            a,
            p,
            passive,
            kings,
            rooks,
        );
        if bishops.contains(m) || self.plain_move(Piece::Knight, m) {
            self.lemma_plain_complete(Piece::Knight, bishops, m);
        }
        let knights = plain_moves_onto(
            Piece::Knight,
            active.knights.0,
            color,
            a,
            Mask(0),
            passive,
            kings,
            bishops,
        );
        if knights.contains(m) || self.pawn_move(m) {
            self.lemma_pawns_complete(knights, m);
        }
        let pawns = active.pawns.moves_onto(
            color,
            a,
            p,
            passive,
            self.metadata.en_passant,
            kings,
            knights,
        );
        self.lemma_kings_complete(pawns, m);
    }
}

} // verus!
