//! What a search works with: its hasher, the values that it has found,
//! and the position that it looks at.

use vstd::prelude::*;
use std::collections::HashMap;
use crate::board::BitBoard;
use crate::enums::{ColorPiece, Millipawns};
use crate::metadata::Metadata;
use crate::zobrist::{BitBoardHasher, HashResult, PositionHashes};

verus! {

/// A search with its hasher and the values of positions by their hashes.
pub struct ShessEngine<'a> {
    pub hasher: &'a BitBoardHasher,
    pub hashes: PositionHashes,
    pub board: BitBoard,
}

impl<'a> ShessEngine<'a> {
    /// A search on the position without pieces, with no value found yet.
    pub fn new(hasher: &'a BitBoardHasher) -> (r: Self)
        ensures
            r.hasher == hasher,
            r.hashes@ == Map::<HashResult, Millipawns>::empty(),
            r.board.metadata == Metadata::bare(),
            r.board.shows(Seq::new(64, |i: int| None::<ColorPiece>)),
    {
        ShessEngine { hashes: HashMap::new(), hasher, board: BitBoard::empty() }
    }
}

} // verus!
