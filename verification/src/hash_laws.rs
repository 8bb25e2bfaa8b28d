//! What holds of the hashes: equal positions hash alike, and the hash
//! kept up move by move is the hash of the position.

use vstd::prelude::*;
use crate::bits::{bit, group_bit_facts, single};
use crate::board::BitBoard;
use crate::castling::{CastlingDetails, CastlingSide};
use crate::enums::{Color, Piece};
use crate::half::HalfBitBoard;
use crate::masks::Mask;
use crate::moves::Move;
use crate::zobrist::{
    hash_mask_spec, hash_to_move_spec, table_wf, xor_step, BitBoardHasher, HalfBitBoardHasher,
    HashResult, BLACK_TO_MOVE,
};

verus! {

proof fn lemma_xor(a: u64, b: u64, c: u64)
    by (bit_vector)
    ensures
        (a ^ b) ^ c == a ^ (b ^ c),
        (a ^ b) ^ c == (a ^ c) ^ b,
        a ^ b == b ^ a,
        a ^ a == 0,
        a ^ 0 == a,
        0 ^ a == a,
        (a ^ c) ^ (b ^ c) == a ^ b,
        a | a == a,
        (a & 0x8000_0000_0000_0000 == 0 && b & 0x8000_0000_0000_0000 == 0) ==> (a ^ b)
            & 0x8000_0000_0000_0000 == 0,
        0u64 & 0x8000_0000_0000_0000 == 0,
{
}

proof fn lemma_xor_six(k: u64, q: u64, r: u64, b: u64, n: u64, p: u64, x: u64)
    by (bit_vector)
    ensures
        (k ^ x) ^ q ^ r ^ b ^ n ^ p == (k ^ q ^ r ^ b ^ n ^ p) ^ x,
        k ^ (q ^ x) ^ r ^ b ^ n ^ p == (k ^ q ^ r ^ b ^ n ^ p) ^ x,
        k ^ q ^ (r ^ x) ^ b ^ n ^ p == (k ^ q ^ r ^ b ^ n ^ p) ^ x,
        k ^ q ^ r ^ (b ^ x) ^ n ^ p == (k ^ q ^ r ^ b ^ n ^ p) ^ x,
        k ^ q ^ r ^ b ^ (n ^ x) ^ p == (k ^ q ^ r ^ b ^ n ^ p) ^ x,
        k ^ q ^ r ^ b ^ n ^ (p ^ x) == (k ^ q ^ r ^ b ^ n ^ p) ^ x,
        (k & 0x8000_0000_0000_0000 == 0 && q & 0x8000_0000_0000_0000 == 0 && r
            & 0x8000_0000_0000_0000 == 0 && b & 0x8000_0000_0000_0000 == 0 && n
            & 0x8000_0000_0000_0000 == 0 && p & 0x8000_0000_0000_0000 == 0) ==> (k ^ q ^ r ^ b ^ n
            ^ p) & 0x8000_0000_0000_0000 == 0,
{
}

proof fn lemma_delta_algebra(
    t: u64,
    e: u64,
    wc: u64,
    bc: u64,
    wh: u64,
    bh: u64,
    t2: u64,
    e2: u64,
    wc2: u64,
    bc2: u64,
    dw: u64,
    db: u64,
)
    by (bit_vector)
    requires
        t == 0 || t == 0x8000_0000_0000_0000,
        e & 0x8000_0000_0000_0000 == 0,
        wc & 0x8000_0000_0000_0000 == 0,
        bc & 0x8000_0000_0000_0000 == 0,
        wh & 0x8000_0000_0000_0000 == 0,
        bh & 0x8000_0000_0000_0000 == 0,
    ensures
        ((t ^ e ^ wc ^ bc ^ wh ^ bh) & 0x7fff_ffff_ffff_ffff) ^ t2 ^ (dw ^ db) ^ (wc ^ bc ^ wc2
            ^ bc2) ^ (e ^ e2) == t2 ^ e2 ^ wc2 ^ bc2 ^ (wh ^ dw) ^ (bh ^ db),
        ((t ^ e ^ wc ^ bc ^ wh ^ bh) & 0x7fff_ffff_ffff_ffff) ^ t2 ^ (db ^ dw) ^ (bc ^ wc ^ bc2
            ^ wc2) ^ (e ^ e2) == t2 ^ e2 ^ wc2 ^ bc2 ^ (wh ^ dw) ^ (bh ^ db),
{
}

/// The hash of a set of squares leaves the highest bit free when every
/// word of the table does.
pub proof fn lemma_hash_mask_payload(table: Seq<HashResult>, m: Mask, n: int)
    requires
        table_wf(table),
        0 <= n <= 64,
    ensures
        m.fold(n, 0u64, xor_step(table)) & BLACK_TO_MOVE == 0,
    decreases n,
{
    if n > 0 {
        lemma_hash_mask_payload(table, m, n - 1);
        lemma_xor(m.fold(n - 1, 0u64, xor_step(table)), table[n - 1], 0);
    } else {
        lemma_xor(0, 0, 0);
    }
}

/// The hash of the symmetric difference of two sets is the two hashes
/// folded together.
pub proof fn lemma_hash_mask_xor(table: Seq<HashResult>, m: Mask, d: Mask, n: int)
    requires
        0 <= n <= 64,
    ensures
        Mask(m.0 ^ d.0).fold(n, 0u64, xor_step(table)) == m.fold(n, 0u64, xor_step(table)) ^ d.fold(
            n,
            0u64,
            xor_step(table),
        ),
    decreases n,
{
    broadcast use group_bit_facts;

    let f = xor_step(table);
    if n > 0 {
        lemma_hash_mask_xor(table, m, d, n - 1);
        let a = m.fold(n - 1, 0u64, f);
        let b = d.fold(n - 1, 0u64, f);
        let t = table[n - 1];
        lemma_xor(a, b, t);
        lemma_xor(a, t, b);
        lemma_xor(b, t, a);
        if m.has(n - 1) && d.has(n - 1) {
            assert((a ^ t) ^ (b ^ t) == a ^ b);
        } else if m.has(n - 1) {
            assert((a ^ b) ^ t == (a ^ t) ^ b);
        } else if d.has(n - 1) {
            assert((a ^ b) ^ t == a ^ (b ^ t));
        }
    } else {
        lemma_xor(0, 0, 0);
    }
}

/// The hash of the set of one square is the word of the square.
pub proof fn lemma_hash_mask_single(table: Seq<HashResult>, s: int, n: int)
    requires
        0 <= s < 64,
        0 <= n <= 64,
    ensures
        Mask(single(s)).fold(n, 0u64, xor_step(table)) == (if s < n {
            table[s]
        } else {
            0
        }),
    decreases n,
{
    broadcast use group_bit_facts;

    if n > 0 {
        lemma_hash_mask_single(table, s, n - 1);
        lemma_xor(table[s], 0, 0);
    }
}

/// The hash of the set of two squares is the words of the two folded
/// together.
pub proof fn lemma_hash_mask_pair(table: Seq<HashResult>, a: int, b: int)
    requires
        0 <= a < 64,
        0 <= b < 64,
        a != b,
    ensures
        hash_mask_spec(table, Mask(single(a) | single(b))) == table[a] ^ table[b],
{
    broadcast use group_bit_facts;

    let pair = Mask(single(a) | single(b));
    let both = Mask(single(a) ^ single(b));
    assert forall|i: int| 0 <= i < 64 implies pair.has(i) == both.has(i) by {}
    crate::masks::lemma_mask_equal(pair, both);
    lemma_hash_mask_xor(table, Mask(single(a)), Mask(single(b)), 64);
    lemma_hash_mask_single(table, a, 64);
    lemma_hash_mask_single(table, b, 64);
}

impl HalfBitBoardHasher {
    /// The hash of a side leaves the highest bit free.
    pub proof fn lemma_hash_payload(self, hbb: HalfBitBoard)
        requires
            self.wf(),
        ensures
            self.hash_spec(hbb) & BLACK_TO_MOVE == 0,
            forall|rights: crate::castling::CastlingRights|
                #[trigger] self.hash_castle_spec(rights) & BLACK_TO_MOVE == 0,
    {
        lemma_hash_mask_payload(self.kings@, hbb.kings.0, 64);
        lemma_hash_mask_payload(self.queens@, hbb.queens.0, 64);
        lemma_hash_mask_payload(self.rooks@, hbb.rooks.0, 64);
        lemma_hash_mask_payload(self.bishops@, hbb.bishops.0, 64);
        lemma_hash_mask_payload(self.knights@, hbb.knights.0, 64);
        lemma_hash_mask_payload(self.pawns@, hbb.pawns.0, 64);
        lemma_xor_six(
            hash_mask_spec(self.kings@, hbb.kings.0),
            hash_mask_spec(self.queens@, hbb.queens.0),
            hash_mask_spec(self.rooks@, hbb.rooks.0),
            hash_mask_spec(self.bishops@, hbb.bishops.0),
            hash_mask_spec(self.knights@, hbb.knights.0),
            hash_mask_spec(self.pawns@, hbb.pawns.0),
            0,
        );
        assert forall|rights: crate::castling::CastlingRights|
            #[trigger] self.hash_castle_spec(rights) & BLACK_TO_MOVE == 0 by {
            lemma_xor(self.castling.ooo, self.castling.oo, 0);
            lemma_xor(self.castling.ooo, 0, 0);
            lemma_xor(0, self.castling.oo, 0);
            lemma_xor(0, 0, 0);
        }
    }

    /// Toggling squares for one kind of piece folds their words into the
    /// hash of the side.
    pub proof fn lemma_hash_toggled(self, hbb: HalfBitBoard, piece: Piece, mask: Mask)
        ensures
            self.hash_spec(hbb.toggled(piece, mask)) == self.hash_spec(hbb) ^ hash_mask_spec(
                self.table(piece),
                mask,
            ),
    {
        lemma_hash_mask_xor(self.table(piece), hbb.piece_mask_spec(piece), mask, 64);
        lemma_xor_six(
            hash_mask_spec(self.kings@, hbb.kings.0),
            hash_mask_spec(self.queens@, hbb.queens.0),
            hash_mask_spec(self.rooks@, hbb.rooks.0),
            hash_mask_spec(self.bishops@, hbb.bishops.0),
            hash_mask_spec(self.knights@, hbb.knights.0),
            hash_mask_spec(self.pawns@, hbb.pawns.0),
            hash_mask_spec(self.table(piece), mask),
        );
    }
}

impl Move {
    /// The squares that the move toggles for one kind of piece are two:
    /// the piece does not stay where it is, unless it is promoted, and in
    /// castling neither does the rook.
    pub open spec fn toggles_apart(self, details: CastlingDetails) -> bool {
        &&& self.from_to.from.on_board()
        &&& self.from_to.to.on_board()
        &&& (self.capture matches Some((sq, _)) ==> sq.on_board())
        &&& (self.promotion.is_none() ==> self.from_to.from != self.from_to.to)
        &&& (self.castling matches Some(side) ==> (match side {
            CastlingSide::OOO => details.ooo.rook_move.from != details.ooo.rook_move.to,
            CastlingSide::OO => details.oo.rook_move.from != details.oo.rook_move.to,
        }))
    }
}

impl BitBoardHasher {
    /// What the pieces of both sides hash to after a move is what they
    /// hashed to before with the words of the move folded in.
    pub proof fn lemma_pieces_delta(self, board: BitBoard, mv: Move)
        requires
            mv.toggles_apart(board.metadata.castling_details),
        ensures
            ({
                let color = mv.color_and_piece.color_spec();
                self.side(color).hash_spec(board.active_after(mv)) ^ self.side(
                    color.other_spec(),
                ).hash_spec(board.passive_after(mv)) == self.side(color).hash_spec(
                    board.side(color),
                ) ^ self.side(color.other_spec()).hash_spec(board.side(color.other_spec()))
                    ^ self.piece_delta(board.metadata, mv)
            }),
    {
        let color = mv.color_and_piece.color_spec();
        let piece = mv.color_and_piece.piece_spec();
        let same = self.side(color);
        let opposite = self.side(color.other_spec());
        let active = board.side(color);
        let passive = board.side(color.other_spec());
        let from = mv.from_to.from;
        let to = mv.from_to.to;
        let h0 = same.hash_spec(active);
        let g0 = opposite.hash_spec(passive);
        // the moving piece
        let moved_words = match mv.promotion {
            Some(p) => same.table(Piece::Pawn)[from@] ^ same.table(p)[to@],
            None => same.table(piece)[from@] ^ same.table(piece)[to@],
        };
        let moved = match mv.promotion {
            Some(p) => active.toggled(Piece::Pawn, from.as_mask_spec()).toggled(
                p,
                to.as_mask_spec(),
            ),
            None => active.toggled(piece, mv.from_to.as_mask_spec()),
        };
        assert(same.hash_spec(moved) == h0 ^ moved_words) by {
            match mv.promotion {
                Some(p) => {
                    let mid = active.toggled(Piece::Pawn, from.as_mask_spec());
                    same.lemma_hash_toggled(active, Piece::Pawn, from.as_mask_spec());
                    same.lemma_hash_toggled(mid, p, to.as_mask_spec());
                    lemma_hash_mask_single(same.table(Piece::Pawn), from@, 64);
                    lemma_hash_mask_single(same.table(p), to@, 64);
                    lemma_xor(h0, same.table(Piece::Pawn)[from@], same.table(p)[to@]);
                },
                None => {
                    same.lemma_hash_toggled(active, piece, mv.from_to.as_mask_spec());
                    lemma_hash_mask_pair(same.table(piece), from@, to@);
                },
            }
        }
        // the rook of a castling
        let rook_words = match mv.castling {
            Some(cs) => {
                let detail = match cs {
                    CastlingSide::OOO => board.metadata.castling_details.ooo,
                    CastlingSide::OO => board.metadata.castling_details.oo,
                };
                let step = detail.rook_move.as_move_spec(color.starting_rank_spec());
                same.table(Piece::Rook)[step.from@] ^ same.table(Piece::Rook)[step.to@]
            },
            None => 0,
        };
        assert(same.hash_spec(board.active_after(mv)) == h0 ^ moved_words ^ rook_words) by {
            match mv.castling {
                Some(cs) => {
                    let detail = match cs {
                        CastlingSide::OOO => board.metadata.castling_details.ooo,
                        CastlingSide::OO => board.metadata.castling_details.oo,
                    };
                    let step = detail.rook_move.as_move_spec(color.starting_rank_spec());
                    same.lemma_hash_toggled(moved, Piece::Rook, step.as_mask_spec());
                    lemma_hash_mask_pair(same.table(Piece::Rook), step.from@, step.to@);
                },
                None => {
                    lemma_xor(h0 ^ moved_words, 0, 0);
                },
            }
        }
        // the captured piece
        let taken_words = match mv.capture {
            Some((sq, p)) => opposite.table(p)[sq@],
            None => 0,
        };
        assert(opposite.hash_spec(board.passive_after(mv)) == g0 ^ taken_words) by {
            match mv.capture {
                Some((sq, p)) => {
                    opposite.lemma_hash_toggled(passive, p, sq.as_mask_spec());
                    lemma_hash_mask_single(opposite.table(p), sq@, 64);
                },
                None => {
                    lemma_xor(g0, 0, 0);
                },
            }
        }
        lemma_pieces_algebra(h0, g0, moved_words, taken_words, rook_words);
    }

    /// The hash of a position leaves the side to move aside when the
    /// highest bit is cleared.
    pub proof fn lemma_payloads(self, board: BitBoard)
        requires
            self.wf(),
        ensures
            self.hash_en_passant_spec(board.metadata.en_passant) & BLACK_TO_MOVE == 0
                || board.metadata.en_passant.is_some() && !board.metadata.en_passant.unwrap().to.on_board(),
            self.white.hash_spec(board.white) & BLACK_TO_MOVE == 0,
            self.black.hash_spec(board.black) & BLACK_TO_MOVE == 0,
    {
        self.white.lemma_hash_payload(board.white);
        self.black.lemma_hash_payload(board.black);
        lemma_xor(0, 0, 0);
        match board.metadata.en_passant {
            Some(ep) => {
                if ep.to.on_board() {
                    assert(0 <= ep.to@ % 8 < 8);
                }
            },
            None => {},
        }
    }
}

proof fn lemma_pieces_algebra(h: u64, g: u64, m: u64, t: u64, r: u64)
    by (bit_vector)
    ensures
        (h ^ m ^ r) ^ (g ^ t) == h ^ g ^ (m ^ t ^ r),
{
}

/// Two positions with the same pieces, the same side to move, the same
/// castling rights and the same capture in passing have the same hash.
pub proof fn lemma_hash_of_equal_positions(hasher: BitBoardHasher, a: BitBoard, b: BitBoard)
    requires
        a.white == b.white,
        a.black == b.black,
        a.metadata.to_move == b.metadata.to_move,
        a.metadata.white_castling == b.metadata.white_castling,
        a.metadata.black_castling == b.metadata.black_castling,
        a.metadata.en_passant == b.metadata.en_passant,
    ensures
        hasher.hash_full_spec(a) == hasher.hash_full_spec(b),
{
}

/// The hash that `delta` makes of the hash of a position is the hash of
/// the position after the move.
pub proof fn lemma_delta_is_hash_after(hasher: BitBoardHasher, board: BitBoard, mv: Move)
    requires
        hasher.wf(),
        mv.toggles_apart(board.metadata.castling_details),
        board.metadata.en_passant matches Some(ep) ==> ep.to.on_board(),
    ensures
        hasher.delta_spec(board.metadata, hasher.hash_full_spec(board), mv)
            == hasher.hash_full_spec(board.apply_spec(mv)),
{
    let color = mv.color_and_piece.color_spec();
    let after = board.apply_spec(mv);
    hasher.lemma_pieces_delta(board, mv);
    hasher.lemma_payloads(board);
    hasher.white.lemma_hash_payload(board.white);
    hasher.black.lemma_hash_payload(board.black);
    let t = hash_to_move_spec(board.metadata.to_move);
    let e = hasher.hash_en_passant_spec(board.metadata.en_passant);
    let wc = hasher.white.hash_castle_spec(board.metadata.white_castling);
    let bc = hasher.black.hash_castle_spec(board.metadata.black_castling);
    let wh = hasher.white.hash_spec(board.white);
    let bh = hasher.black.hash_spec(board.black);
    let t2 = hash_to_move_spec(after.metadata.to_move);
    let e2 = hasher.hash_en_passant_spec(after.metadata.en_passant);
    let wc2 = hasher.white.hash_castle_spec(after.metadata.white_castling);
    let bc2 = hasher.black.hash_castle_spec(after.metadata.black_castling);
    let pd = hasher.piece_delta(board.metadata, mv);
    // what the move does to each side's pieces
    let same = hasher.side(color);
    let opposite = hasher.side(color.other_spec());
    let ds = same.hash_spec(board.side(color)) ^ same.hash_spec(board.active_after(mv));
    let dop = opposite.hash_spec(board.side(color.other_spec())) ^ opposite.hash_spec(
        board.passive_after(mv),
    );
    lemma_sides_algebra(
        same.hash_spec(board.side(color)),
        opposite.hash_spec(board.side(color.other_spec())),
        same.hash_spec(board.active_after(mv)),
        opposite.hash_spec(board.passive_after(mv)),
        pd,
    );
    match color {
        Color::White => {
            lemma_delta_algebra(t, e, wc, bc, wh, bh, t2, e2, wc2, bc2, ds, dop);
        },
        Color::Black => {
            lemma_delta_algebra(t, e, wc, bc, wh, bh, t2, e2, wc2, bc2, dop, ds);
        },
    }
}

proof fn lemma_sides_algebra(h: u64, g: u64, h2: u64, g2: u64, pd: u64)
    by (bit_vector)
    requires
        h2 ^ g2 == h ^ g ^ pd,
    ensures
        (h ^ h2) ^ (g ^ g2) == pd,
        (g ^ g2) ^ (h ^ h2) == pd,
        h ^ (h ^ h2) == h2,
        g ^ (g ^ g2) == g2,
{
}

} // verus!
