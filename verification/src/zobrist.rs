//! Zobrist hashing of positions: a random word for each piece on each
//! square, for each castling right and for each file of a capture in
//! passing, folded with exclusive or, and the highest bit for the side to
//! move.

use vstd::prelude::*;
use rand::rngs::StdRng;
use rand::{Rng, SeedableRng};
use std::collections::HashMap;
use crate::board::BitBoard;
use crate::boardmap::BoardMap;
use crate::castling::{CastlingInfo, CastlingRights, CastlingSide};
use crate::enums::{Color, Millipawns, Piece};
use crate::half::HalfBitBoard;
use crate::masks::{lemma_walk_end, lemma_walk_step, walking, Mask};
use crate::metadata::Metadata;
use crate::moves::Move;
use crate::pieces::pawns::EnPassant;
use crate::squares::Square;

verus! {

/// The hash of a position.
pub type HashResult = u64;

/// A word for each square.
pub type MaskHasher = BoardMap<HashResult>;

/// Values of positions by their hashes.
pub type PositionHashes = HashMap<HashResult, Millipawns>;

/// The bit of a hash that says that Black is to move.
pub const BLACK_TO_MOVE: HashResult = 0x8000_0000_0000_0000;

/// The bits of a hash that stand for the pieces, the castling rights and
/// the capture in passing.
pub const HASH_BITS: HashResult = 0x7fff_ffff_ffff_ffff;

/// How many words a hasher holds: one for each file of a capture in
/// passing, and for each side two for the castling rights and one for
/// each kind of piece on each square.
pub const WORDS: usize = 780;

/// How many words a side holds.
pub const SIDE_WORDS: usize = 386;

/// The first `n` words of the generator of rand that `seed` starts.
pub uninterp spec fn seeded_words(seed: Seq<u8>, n: nat) -> Seq<u64>;

/// `StdRng::from_seed` of rand, and `Rng::random_iter` on the generator
/// it gives: the first `n` words of the generator that a seed of 32
/// bytes starts. The generator holds nothing but what the seed made of
/// it, so the words are the same at every call with the same seed.
#[verifier::external_body]
fn draw_words(seed: [u8; 32], n: usize) -> (r: Vec<u64>)
    requires
        n <= 0xffff,
    ensures
        r@ == seeded_words(seed@, n as nat),
        r@.len() == n,
{
    StdRng::from_seed(seed).random_iter().take(n).collect()
}

/// The word that stands at place `k` of a hasher made of `words`: the
/// word there without its highest bit, and zero where there is none.
pub open spec fn word_at(words: Seq<u64>, k: int) -> HashResult {
    if 0 <= k < words.len() {
        words[k] & HASH_BITS
    } else {
        0
    }
}

/// The word that stands at place `k` of a hasher made of `words`.
pub fn word(words: &[u64], k: usize) -> (r: HashResult)
    ensures
        r == word_at(words@, k as int),
        r & BLACK_TO_MOVE == 0,
{
    let w: u64 = if k < words.len() {
        words[k]
    } else {
        0
    };
    let r: u64 = w & HASH_BITS;
    assert(r & BLACK_TO_MOVE == 0 && (w == 0 ==> r == 0)) by (bit_vector)
        requires
            r == w & 0x7fff_ffff_ffff_ffffu64,
    ;
    r
}

/// Folds the word of one square into a hash.
pub open spec fn xor_step(table: Seq<HashResult>) -> spec_fn(u64, int) -> u64 {
    |acc: u64, s: int| acc ^ table[s]
}

/// The words of a table for the squares of a set, folded together.
pub open spec fn hash_mask_spec(table: Seq<HashResult>, m: Mask) -> HashResult {
    m.fold(64, 0u64, xor_step(table))
}

/// Every word of the table leaves the highest bit free.
pub open spec fn table_wf(table: Seq<HashResult>) -> bool {
    forall|i: int| 0 <= i < 64 ==> #[trigger] table[i] & BLACK_TO_MOVE == 0
}

/// Tables with the same words are the same table.
pub proof fn lemma_same_table(a: MaskHasher, b: MaskHasher)
    requires
        forall|i: int| 0 <= i < 64 ==> #[trigger] a@[i] == b@[i],
    ensures
        a == b,
{
    assert(a@.len() == 64 && b@.len() == 64);
    assert(a@ =~= b@);
    assert(a.0 =~= b.0);
}

/// The bit for the side to move.
pub open spec fn hash_to_move_spec(color: Color) -> HashResult {
    match color {
        Color::White => 0,
        Color::Black => BLACK_TO_MOVE,
    }
}

impl BoardMap<HashResult> {
    /// The word of a square.
    pub fn hash_square(&self, sq: Square) -> (r: HashResult)
        ensures
            r == self@[sq@],
    {
        self.at(sq)
    }

    /// The words of the squares of a set, folded together.
    pub fn hash_mask(&self, m: Mask) -> (r: HashResult)
        ensures
            r == hash_mask_spec(self@, m),
    {
        let mut res: u64 = 0;
        let mut iter = m.iter();
        let ghost mut k: int = 0;
        let ghost f = xor_step(self@);
        loop
            invariant_except_break
                walking(m, iter.rest, k),
                f == xor_step(self@),
                res == m.fold(k, 0u64, f),
            ensures
                res == m.fold(64, 0u64, f),
            decreases iter.rest.0,
        {
            let ghost before = iter.rest;
            match iter.next() {
                None => {
                    proof {
                        lemma_walk_end(m, before, k, 0u64, f);
                    }
                    break ;
                },
                Some(sq) => {
                    proof {
                        lemma_walk_step(m, before, k, 0u64, f);
                        k = sq@ + 1;
                    }
                    res = res ^ self.at(sq);
                },
            }
        }
        res
    }

    /// The table whose word for square `i` stands at place `at + i` of
    /// `words`.
    pub fn drawn(words: &[u64], at: usize) -> (r: Self)
        requires
            at + 64 <= usize::MAX,
        ensures
            r@.len() == 64,
            forall|i: int| 0 <= i < 64 ==> #[trigger] r@[i] == word_at(words@, at + i),
            table_wf(r@),
    {
        let mut res = [0u64;64];
        let mut n: usize = 0;
        while n < 64
            invariant
                n <= 64,
                at + 64 <= usize::MAX,
                forall|i: int| 0 <= i < n ==> #[trigger] res@[i] == word_at(words@, at + i),
                forall|i: int| 0 <= i < n ==> #[trigger] res@[i] & BLACK_TO_MOVE == 0,
            decreases 64 - n,
        {
            let v = word(words, at + n);
            res[n] = v;
            n += 1;
        }
        BoardMap(res)
    }
}

/// The words of one side.
#[derive(Debug)]
pub struct HalfBitBoardHasher {
    pub castling: CastlingInfo<HashResult>,
    pub kings: MaskHasher,
    pub queens: MaskHasher,
    pub rooks: MaskHasher,
    pub bishops: MaskHasher,
    pub knights: MaskHasher,
    pub pawns: MaskHasher,
}

impl HalfBitBoardHasher {
    /// Every word leaves the highest bit free.
    pub open spec fn wf(self) -> bool {
        &&& self.castling.ooo & BLACK_TO_MOVE == 0
        &&& self.castling.oo & BLACK_TO_MOVE == 0
        &&& table_wf(self.kings@)
        &&& table_wf(self.queens@)
        &&& table_wf(self.rooks@)
        &&& table_wf(self.bishops@)
        &&& table_wf(self.knights@)
        &&& table_wf(self.pawns@)
    }

    /// The table of a kind of piece.
    pub open spec fn table(self, piece: Piece) -> Seq<HashResult> {
        match piece {
            Piece::Pawn => self.pawns@,
            Piece::Knight => self.knights@,
            Piece::Bishop => self.bishops@,
            Piece::Rook => self.rooks@,
            Piece::Queen => self.queens@,
            Piece::King => self.kings@,
        }
    }

    /// The hash of the pieces of a side.
    pub open spec fn hash_spec(self, hbb: HalfBitBoard) -> HashResult {
        hash_mask_spec(self.kings@, hbb.kings.0) ^ hash_mask_spec(self.queens@, hbb.queens.0)
            ^ hash_mask_spec(self.rooks@, hbb.rooks.0) ^ hash_mask_spec(
            self.bishops@,
            hbb.bishops.0,
        ) ^ hash_mask_spec(self.knights@, hbb.knights.0) ^ hash_mask_spec(
            self.pawns@,
            hbb.pawns.0,
        )
    }

    /// The hash of the castling rights of a side.
    pub open spec fn hash_castle_spec(self, castling: CastlingRights) -> HashResult {
        (if castling.ooo {
            self.castling.ooo
        } else {
            0
        }) ^ (if castling.oo {
            self.castling.oo
        } else {
            0
        })
    }

    pub fn hash(&self, hbb: &HalfBitBoard) -> (r: HashResult)
        ensures
            r == self.hash_spec(*hbb),
    {
        self.kings.hash_mask(hbb.kings.as_mask()) ^ self.queens.hash_mask(hbb.queens.as_mask())
            ^ self.rooks.hash_mask(hbb.rooks.as_mask()) ^ self.bishops.hash_mask(
            hbb.bishops.as_mask(),
        ) ^ self.knights.hash_mask(hbb.knights.as_mask()) ^ self.pawns.hash_mask(
            hbb.pawns.as_mask(),
        )
    }

    pub fn hasher_for_piece(&self, piece: Piece) -> (r: &MaskHasher)
        ensures
            r@ == self.table(piece),
    {
        match piece {
            Piece::Pawn => &self.pawns,
            Piece::Knight => &self.knights,
            Piece::Bishop => &self.bishops,
            Piece::Rook => &self.rooks,
            Piece::Queen => &self.queens,
            Piece::King => &self.kings,
        }
    }

    /// The word of a piece on a square.
    pub fn hash_piece(&self, piece: Piece, square: Square) -> (r: HashResult)
        ensures
            r == self.table(piece)[square@],
    {
        self.hasher_for_piece(piece).hash_square(square)
    }

    pub fn hash_castle(&self, castling: CastlingRights) -> (r: HashResult)
        ensures
            r == self.hash_castle_spec(castling),
    {
        (if castling.ooo {
            self.castling.ooo
        } else {
            0
        }) ^ (if castling.oo {
            self.castling.oo
        } else {
            0
        })
    }

    /// The words of the side are those of `words` from place `at` on:
    /// the two of the castling rights, the long one first, then a table
    /// each for the kings, the queens, the rooks, the bishops, the
    /// knights and the pawns.
    pub open spec fn made_of(self, words: Seq<u64>, at: int) -> bool {
        &&& self.castling.ooo == word_at(words, at)
        &&& self.castling.oo == word_at(words, at + 1)
        &&& forall|i: int| 0 <= i < 64 ==> #[trigger] self.kings@[i] == word_at(words, at + 2 + i)
        &&& forall|i: int|
            0 <= i < 64 ==> #[trigger] self.queens@[i] == word_at(words, at + 66 + i)
        &&& forall|i: int| 0 <= i < 64 ==> #[trigger] self.rooks@[i] == word_at(words, at + 130 + i)
        &&& forall|i: int|
            0 <= i < 64 ==> #[trigger] self.bishops@[i] == word_at(words, at + 194 + i)
        &&& forall|i: int|
            0 <= i < 64 ==> #[trigger] self.knights@[i] == word_at(words, at + 258 + i)
        &&& forall|i: int| 0 <= i < 64 ==> #[trigger] self.pawns@[i] == word_at(words, at + 322 + i)
    }

    /// Takes every word anew from `words`, from place `at` on.
    pub fn fill(&mut self, words: &[u64], at: usize)
        requires
            at + SIDE_WORDS <= usize::MAX,
        ensures
            final(self).made_of(words@, at as int),
            final(self).wf(),
    {
        let ooo = word(words, at);
        let oo = word(words, at + 1);
        self.castling = CastlingInfo { ooo, oo };
        self.kings = MaskHasher::drawn(words, at + 2);
        self.queens = MaskHasher::drawn(words, at + 66);
        self.rooks = MaskHasher::drawn(words, at + 130);
        self.bishops = MaskHasher::drawn(words, at + 194);
        self.knights = MaskHasher::drawn(words, at + 258);
        self.pawns = MaskHasher::drawn(words, at + 322);
    }

    /// The words all zero.
    pub fn blank() -> (r: Self)
        ensures
            r.wf(),
            r.castling == (CastlingInfo { ooo: 0u64, oo: 0u64 }),
            forall|p: Piece, i: int| 0 <= i < 64 ==> #[trigger] r.table(p)[i] == 0,
    {
        assert(0u64 & 0x8000_0000_0000_0000u64 == 0) by (bit_vector);
        HalfBitBoardHasher {
            castling: CastlingInfo { ooo: 0, oo: 0 },
            kings: BoardMap::new_with(0),
            queens: BoardMap::new_with(0),
            rooks: BoardMap::new_with(0),
            bishops: BoardMap::new_with(0),
            knights: BoardMap::new_with(0),
            pawns: BoardMap::new_with(0),
        }
    }
}

/// The words of both sides and of the files of a capture in passing.
pub struct BitBoardHasher {
    pub en_passant_file: [HashResult; 8],
    pub white: HalfBitBoardHasher,
    pub black: HalfBitBoardHasher,
}

impl BitBoardHasher {
    /// Every word leaves the highest bit free.
    pub open spec fn wf(self) -> bool {
        &&& self.white.wf()
        &&& self.black.wf()
        &&& forall|i: int| 0 <= i < 8 ==> #[trigger] self.en_passant_file@[i] & BLACK_TO_MOVE == 0
    }

    /// The words of a color.
    pub open spec fn side(self, color: Color) -> HalfBitBoardHasher {
        match color {
            Color::White => self.white,
            Color::Black => self.black,
        }
    }

    /// The hash of the capture in passing that is open: the word of the
    /// file of the square that the capturing pawn goes to.
    pub open spec fn hash_en_passant_spec(self, en_passant: Option<EnPassant>) -> HashResult {
        match en_passant {
            Some(ep) => self.en_passant_file@[ep.to@ % 8],
            None => 0,
        }
    }

    /// The hash of a position: the side to move, the capture in passing,
    /// the castling rights and the pieces of both sides. The clocks are
    /// not part of it.
    pub open spec fn hash_full_spec(self, board: BitBoard) -> HashResult {
        hash_to_move_spec(board.metadata.to_move) ^ self.hash_en_passant_spec(
            board.metadata.en_passant,
        ) ^ self.white.hash_castle_spec(board.metadata.white_castling)
            ^ self.black.hash_castle_spec(board.metadata.black_castling) ^ self.white.hash_spec(
            board.white,
        ) ^ self.black.hash_spec(board.black)
    }

    /// What a move does to the words of the pieces: the moving piece
    /// leaves its square and comes to the other, as what it is promoted
    /// to if it is; the captured piece goes; in castling the rook makes
    /// its step.
    pub open spec fn piece_delta(self, metadata: Metadata, mv: Move) -> HashResult {
        let color = mv.color_and_piece.color_spec();
        let piece = mv.color_and_piece.piece_spec();
        let same = self.side(color);
        let opposite = self.side(color.other_spec());
        let moved = match mv.promotion {
            Some(p) => same.table(Piece::Pawn)[mv.from_to.from@] ^ same.table(p)[mv.from_to.to@],
            None => same.table(piece)[mv.from_to.from@] ^ same.table(piece)[mv.from_to.to@],
        };
        let taken = match mv.capture {
            Some((sq, p)) => opposite.table(p)[sq@],
            None => 0,
        };
        let rook = match mv.castling {
            Some(cs) => {
                let detail = match cs {
                    CastlingSide::OOO => metadata.castling_details.ooo,
                    CastlingSide::OO => metadata.castling_details.oo,
                };
                let step = detail.rook_move.as_move_spec(color.starting_rank_spec());
                same.table(Piece::Rook)[step.from@] ^ same.table(Piece::Rook)[step.to@]
            },
            None => 0,
        };
        moved ^ taken ^ rook
    }

    /// What a move does to the words of the castling rights: those held
    /// before go, those held after come.
    pub open spec fn castle_delta(self, metadata: Metadata, mv: Move) -> HashResult {
        let color = mv.color_and_piece.color_spec();
        let same = self.side(color);
        let opposite = self.side(color.other_spec());
        let same_cast = metadata.rights_of(color);
        let opp_cast = metadata.rights_of(color.other_spec());
        same.hash_castle_spec(same_cast) ^ opposite.hash_castle_spec(opp_cast)
            ^ same.hash_castle_spec(
            same_cast.update_spec(mv.active_rights_spec(metadata.castling_details)),
        ) ^ opposite.hash_castle_spec(
            opp_cast.update_spec(mv.passive_rights_spec(metadata.castling_details)),
        )
    }

    /// The hash after a move, from the hash before it.
    pub open spec fn delta_spec(self, metadata: Metadata, hash: HashResult, mv: Move) -> HashResult {
        (hash & HASH_BITS) ^ hash_to_move_spec(mv.color_and_piece.color_spec().other_spec())
            ^ self.piece_delta(metadata, mv) ^ self.castle_delta(metadata, mv) ^ (
        self.hash_en_passant_spec(metadata.en_passant) ^ self.hash_en_passant_spec(
            mv.en_passant_square_spec(),
        ))
    }

    /// The digits of pi as the characters of a text: the seed of the
    /// generator that draws the words.
    pub open spec fn pi_spec() -> Seq<u8> {
        seq![
            51u8, 46, 49, 52, 49, 53, 57, 50, 54, 53, 51, 53, 56, 57, 55, 57, 51, 50, 51, 56, 52,
            54, 50, 54, 52, 51, 51, 56, 51, 50, 55, 57,
        ]
    }

    /// The seed of the generator that draws the words: the digits of pi.
    pub fn pi() -> (r: [u8; 32])
        ensures
            r@ == Self::pi_spec(),
    {
        let r = [51, 46, 49, 52, 49, 53, 57, 50, 54, 53, 51, 53, 56, 57, 55, 57, 51, 50, 51, 56, 52, 54, 50, 54, 52, 51, 51, 56, 51, 50, 55, 57];
        proof {
            assert(r@ =~= Self::pi_spec());
        }
        r
    }

    /// The words of the hasher are those of `words`, each without its
    /// highest bit: first the eight of the files of a capture in
    /// passing, then those of White, then those of Black. Where `words`
    /// has too few, the words that are left are zero.
    pub open spec fn made_of(self, words: Seq<u64>) -> bool {
        &&& forall|i: int| 0 <= i < 8 ==> #[trigger] self.en_passant_file@[i] == word_at(words, i)
        &&& self.white.made_of(words, 8)
        &&& self.black.made_of(words, 394)
    }

    /// The hasher whose words are the first that a generator seeded with
    /// the digits of pi draws: the same hasher at every call.
    pub fn new() -> (r: Self)
        ensures
            r.made_of(seeded_words(Self::pi_spec(), WORDS as nat)),
            r.wf(),
    {
        let words = draw_words(Self::pi(), WORDS);
        Self::from_words(words.as_slice())
    }

    /// The hasher made of `words`.
    pub fn from_words(words: &[u64]) -> (r: Self)
        ensures
            r.made_of(words@),
            r.wf(),
    {
        assert(0u64 & 0x8000_0000_0000_0000u64 == 0) by (bit_vector);
        let mut res = BitBoardHasher {
            en_passant_file: [0u64;8],
            white: HalfBitBoardHasher::blank(),
            black: HalfBitBoardHasher::blank(),
        };
        res.fill(words);
        res
    }

    /// Takes every word anew from `words`.
    pub fn fill(&mut self, words: &[u64])
        ensures
            final(self).made_of(words@),
            final(self).wf(),
    {
        let mut files = [0u64;8];
        let mut n: usize = 0;
        while n < 8
            invariant
                n <= 8,
                forall|i: int| 0 <= i < n ==> #[trigger] files@[i] == word_at(words@, i),
                forall|i: int| 0 <= i < n ==> #[trigger] files@[i] & BLACK_TO_MOVE == 0,
            decreases 8 - n,
        {
            let v = word(words, n);
            files[n] = v;
            n += 1;
        }
        self.en_passant_file = files;
        self.white.fill(words, 8);
        self.black.fill(words, 394);
    }

    /// Hashers made of the same words are the same hasher.
    pub proof fn lemma_made_of_same_words(self, other: Self, words: Seq<u64>)
        requires
            self.made_of(words),
            other.made_of(words),
        ensures
            self == other,
    {
        assert(self.en_passant_file =~= other.en_passant_file);
        lemma_same_table(self.white.kings, other.white.kings);
        lemma_same_table(self.white.queens, other.white.queens);
        lemma_same_table(self.white.rooks, other.white.rooks);
        lemma_same_table(self.white.bishops, other.white.bishops);
        lemma_same_table(self.white.knights, other.white.knights);
        lemma_same_table(self.white.pawns, other.white.pawns);
        lemma_same_table(self.black.kings, other.black.kings);
        lemma_same_table(self.black.queens, other.black.queens);
        lemma_same_table(self.black.rooks, other.black.rooks);
        lemma_same_table(self.black.bishops, other.black.bishops);
        lemma_same_table(self.black.knights, other.black.knights);
        lemma_same_table(self.black.pawns, other.black.pawns);
    }

    pub fn hash_full(&self, board: &BitBoard) -> (r: HashResult)
        ensures
            r == self.hash_full_spec(*board),
    {
        Self::hash_to_move(board.metadata.to_move) ^ self.hash_en_passant(board.metadata.en_passant)
            ^ self.white.hash_castle(board.metadata.white_castling) ^ self.black.hash_castle(
            board.metadata.black_castling,
        ) ^ self.white.hash(&board.white) ^ self.black.hash(&board.black)
    }

    pub fn hash_en_passant(&self, en_passant: Option<EnPassant>) -> (r: HashResult)
        ensures
            r == self.hash_en_passant_spec(en_passant),
    {
        match en_passant {
            Some(ep) => self.en_passant_file[ep.to.file().as_file() as usize],
            None => 0,
        }
    }

    pub fn hash_to_move(color: Color) -> (r: HashResult)
        ensures
            r == hash_to_move_spec(color),
    {
        match color {
            Color::Black => BLACK_TO_MOVE,
            Color::White => 0,
        }
    }

    /// The hash of the position after a move, from the metadata and the
    /// hash of the position before it.
    pub fn delta(&self, metadata: &Metadata, hash: HashResult, mv: Move) -> (r: HashResult)
        ensures
            r == self.delta_spec(*metadata, hash, mv),
    {
        let (color, piece) = mv.color_and_piece.split();
        let (same, opposite) = match color {
            Color::White => (&self.white, &self.black),
            Color::Black => (&self.black, &self.white),
        };
        let moved = match mv.promotion {
            Some(p) => same.hash_piece(Piece::Pawn, mv.from_to.from) ^ same.hash_piece(
                p,
                mv.from_to.to,
            ),
            None => same.hash_piece(piece, mv.from_to.from) ^ same.hash_piece(piece, mv.from_to.to),
        };
        let taken = match mv.capture {
            Some((sq, p)) => opposite.hash_piece(p, sq),
            None => 0,
        };
        let rook = match mv.castling {
            Some(cs) => {
                let cast = metadata.castling_details.select(cs).rook_move.as_move(
                    color.starting_rank(),
                );
                same.hash_piece(Piece::Rook, cast.from) ^ same.hash_piece(Piece::Rook, cast.to)
            },
            None => 0,
        };
        let (mut same_cast, mut opp_cast) = metadata.castling_rights(color);
        let (same_new_cast, opp_new_cast) = mv.castling_rights(metadata.castling_details);
        let before = same.hash_castle(same_cast) ^ opposite.hash_castle(opp_cast);
        same_cast.update(same_new_cast);
        opp_cast.update(opp_new_cast);
        let castle = before ^ same.hash_castle(same_cast) ^ opposite.hash_castle(opp_cast);
        (hash & HASH_BITS) ^ Self::hash_to_move(color.other()) ^ (moved ^ taken ^ rook) ^ castle ^ (
        self.hash_en_passant(metadata.en_passant) ^ self.hash_en_passant(mv.en_passant_square()))
    }
}

} // verus!
