//! Castling: the rights of a side and the geometry of the two castling
//! moves.

use vstd::prelude::*;
use crate::enums::{File, Rank};
use crate::moves::ProtoMove;
use crate::squares::Square;

verus! {

/// One value for each castling side.
#[derive(Clone, Copy, PartialEq, Eq, Debug)]
pub struct CastlingInfo<T> {
    /// Queenside.
    pub ooo: T,
    /// Kingside.
    pub oo: T,
}

#[derive(Clone, Copy, PartialEq, Eq, Structural, Debug)]
pub enum CastlingSide {
    OOO,
    OO,
}

/// Which of the two castling moves a side may still make.
pub type CastlingRights = CastlingInfo<bool>;

/// How each of the two castling moves runs.
pub type CastlingDetails = CastlingInfo<CastlingDetail>;

impl<T: Copy> CastlingInfo<T> {
    /// The value for one side.
    pub fn select(&self, side: CastlingSide) -> (r: T)
        ensures
            r == (match side {
                CastlingSide::OOO => self.ooo,
                CastlingSide::OO => self.oo,
            }),
    {
        match side {
            CastlingSide::OOO => self.ooo,
            CastlingSide::OO => self.oo,
        }
    }
}

impl CastlingInfo<bool> {
    /// The rights that are left of `self` after losing what `cr` lacks.
    pub open spec fn update_spec(self, cr: CastlingRights) -> CastlingRights {
        CastlingInfo { ooo: self.ooo && cr.ooo, oo: self.oo && cr.oo }
    }

    /// Both rights.
    pub fn new() -> (r: CastlingRights)
        ensures
            r.ooo,
            r.oo,
    {
        CastlingInfo { ooo: true, oo: true }
    }

    /// Keeps of each right what `cr` has of it too.
    pub fn update(&mut self, cr: CastlingRights)
        ensures
            *final(self) == old(self).update_spec(cr),
    {
        self.ooo = self.ooo && cr.ooo;
        self.oo = self.oo && cr.oo;
    }
}

/// A step along a rank, by files.
#[derive(Clone, Copy, PartialEq, Eq, Structural, Debug)]
pub struct SemiProtoMove {
    pub from: File,
    pub to: File,
}

impl SemiProtoMove {
    pub open spec fn as_move_spec(self, rank: Rank) -> ProtoMove {
        ProtoMove { from: Square::at_spec(self.from, rank), to: Square::at_spec(self.to, rank) }
    }

    /// The step on a given rank.
    pub fn as_move(&self, rank: Rank) -> (r: ProtoMove)
        ensures
            r == self.as_move_spec(rank),
    {
        ProtoMove { from: Square::at(self.from, rank), to: Square::at(self.to, rank) }
    }
}

/// One castling move: the files that must be free for the rook and for
/// the king, as bytes of a rank with file a at bit 0, and the steps of
/// the rook and of the king.
#[derive(Clone, Copy, PartialEq, Eq, Structural, Debug)]
pub struct CastlingDetail {
    pub rook_mask: u8,
    pub king_mask: u8,
    pub rook_move: SemiProtoMove,
    pub king_move: SemiProtoMove,
}

impl CastlingInfo<CastlingDetail> {
    /// Castling as in standard chess.
    pub open spec fn standard() -> CastlingDetails {
        CastlingInfo {
            ooo: CastlingDetail {
                rook_mask: 0x0e,
                king_mask: 0x0c,
                rook_move: SemiProtoMove { from: File::A, to: File::D },
                king_move: SemiProtoMove { from: File::E, to: File::C },
            },
            oo: CastlingDetail {
                rook_mask: 0x60,
                king_mask: 0x60,
                rook_move: SemiProtoMove { from: File::H, to: File::F },
                king_move: SemiProtoMove { from: File::E, to: File::G },
            },
        }
    }

    /// Castling as in standard chess: the king goes from the e-file to the
    /// c-file or the g-file, the rook from the a-file to the d-file or from
    /// the h-file to the f-file, and the files between them must be free.
    pub fn new() -> (r: CastlingDetails)
        ensures
            r == Self::standard(),
    {
        CastlingInfo {
            ooo: CastlingDetail {
                rook_mask: 0x0e,
                king_mask: 0x0c,
                rook_move: SemiProtoMove { from: File::A, to: File::D },
                king_move: SemiProtoMove { from: File::E, to: File::C },
            },
            oo: CastlingDetail {
                rook_mask: 0x60,
                king_mask: 0x60,
                rook_move: SemiProtoMove { from: File::H, to: File::F },
                king_move: SemiProtoMove { from: File::E, to: File::G },
            },
        }
    }
}

} // verus!
