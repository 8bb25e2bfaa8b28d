//! What a position holds besides its pieces.

use vstd::prelude::*;
use crate::castling::{CastlingDetails, CastlingInfo, CastlingRights};
use crate::enums::Color;
use crate::pieces::pawns::EnPassant;

verus! {

/// The side to move, the clocks, the castling rights and the capture in
/// passing that is open.
#[derive(Clone, Copy, PartialEq, Eq, Debug)]
pub struct Metadata {
    pub to_move: Color,
    /// Half-moves made since the start of the game.
    pub tempo: u16,
    /// The tempo at the last capture or pawn move.
    pub last_change: u16,
    pub white_castling: CastlingRights,
    pub black_castling: CastlingRights,
    pub castling_details: CastlingDetails,
    pub en_passant: Option<EnPassant>,
}

impl Metadata {
    /// The castling rights of a color.
    pub open spec fn rights_of(self, color: Color) -> CastlingRights {
        match color {
            Color::White => self.white_castling,
            Color::Black => self.black_castling,
        }
    }

    /// The metadata at the start of a game of standard chess.
    pub open spec fn start() -> Metadata {
        Metadata {
            to_move: Color::White,
            tempo: 0,
            last_change: 0,
            white_castling: CastlingInfo { ooo: true, oo: true },
            black_castling: CastlingInfo { ooo: true, oo: true },
            castling_details: CastlingDetails::standard(),
            en_passant: None,
        }
    }

    /// The metadata of `start` without any castling right.
    pub open spec fn bare() -> Metadata {
        Metadata {
            white_castling: CastlingInfo { ooo: false, oo: false },
            black_castling: CastlingInfo { ooo: false, oo: false },
            ..Metadata::start()
        }
    }

    /// The castling rights of a color, then those of the other color.
    pub fn castling_rights(&self, color: Color) -> (r: (CastlingRights, CastlingRights))
        ensures
            r.0 == self.rights_of(color),
            r.1 == self.rights_of(color.other_spec()),
    {
        match color {
            Color::White => (self.white_castling, self.black_castling),
            Color::Black => (self.black_castling, self.white_castling),
        }
    }

    /// The castling rights of a color, then those of the other color, to
    /// be changed in place.
    pub fn castling_rights_mut(&mut self, color: Color) -> (r: (
        &mut CastlingRights,
        &mut CastlingRights,
    ))
        ensures
            *r.0 == old(self).rights_of(color),
            *r.1 == old(self).rights_of(color.other_spec()),
            *final(self) == (match color {
                Color::White => Metadata {
                    white_castling: *final(r.0),
                    black_castling: *final(r.1),
                    ..*old(self)
                },
                Color::Black => Metadata {
                    black_castling: *final(r.0),
                    white_castling: *final(r.1),
                    ..*old(self)
                },
            }),
    {
        match color {
            Color::White => (&mut self.white_castling, &mut self.black_castling),
            Color::Black => (&mut self.black_castling, &mut self.white_castling),
        }
    }

    /// The number of the move that is being played, from 1.
    pub fn turn(&self) -> (r: usize)
        ensures
            r == self.tempo / 2 + 1,
    {
        (self.tempo / 2 + 1) as usize
    }

    /// The metadata at the start of a game of standard chess: White to
    /// move, the clocks at 0, every castling right, no capture in passing.
    pub fn new() -> (r: Metadata)
        ensures
            r == Metadata::start(),
    {
        Metadata {
            to_move: Color::White,
            tempo: 0,
            last_change: 0,
            white_castling: CastlingRights::new(),
            black_castling: CastlingRights::new(),
            castling_details: CastlingDetails::new(),
            en_passant: None,
        }
    }

    /// The metadata of an empty board: as at the start, without any
    /// castling right.
    pub fn empty() -> (r: Metadata)
        ensures
            r == Metadata::bare(),
    {
        Metadata {
            to_move: Color::White,
            tempo: 0,
            last_change: 0,
            white_castling: CastlingInfo { ooo: false, oo: false },
            black_castling: CastlingInfo { ooo: false, oo: false },
            castling_details: CastlingDetails::new(),
            en_passant: None,
        }
    }
}

} // verus!
