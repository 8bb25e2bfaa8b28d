//! The small closed vocabularies of the board: colors, shades, ranks,
//! files, piece kinds, directions and game results.

use vstd::prelude::*;
use crate::masks::Mask;
use crate::text::split_first;

verus! {

#[derive(Clone, Copy, PartialEq, Eq, Structural, Debug)]
pub enum Color {
    White,
    Black,
}

impl Default for Color {
    fn default() -> (r: Color)
        ensures
            r == Color::White,
    {
        Color::White
    }
}

impl Color {
    pub open spec fn starting_rank_spec(self) -> Rank {
        match self {
            Color::White => Rank::_1,
            Color::Black => Rank::_8,
        }
    }

    pub open spec fn other_spec(self) -> Color {
        match self {
            Color::White => Color::Black,
            Color::Black => Color::White,
        }
    }

    /// The rank on which the pieces of this color start.
    pub fn starting_rank(&self) -> (r: Rank)
        ensures
            r == self.starting_rank_spec(),
    {
        match self {
            Color::White => Rank::_1,
            Color::Black => Rank::_8,
        }
    }

    pub fn other(&self) -> (r: Color)
        ensures
            r == self.other_spec(),
            r != *self,
    {
        match self {
            Color::White => Color::Black,
            Color::Black => Color::White,
        }
    }
}

#[derive(Clone, Copy, PartialEq, Eq, Structural, Debug)]
pub enum Shade {
    Dark,
    Light,
}

impl Shade {
    /// Whether the square of index `i` has this shade; a1 is dark.
    pub open spec fn covers(self, i: int) -> bool {
        match self {
            Shade::Dark => (i / 8 + i % 8) % 2 == 0,
            Shade::Light => (i / 8 + i % 8) % 2 == 1,
        }
    }

    pub open spec fn as_mask_spec(self) -> Mask {
        match self {
            Shade::Dark => Mask(0xaa55_aa55_aa55_aa55),
            Shade::Light => Mask(0x55aa_55aa_55aa_55aa),
        }
    }

    /// The squares of this shade.
    pub fn as_mask(&self) -> (r: Mask)
        ensures
            r == self.as_mask_spec(),
            forall|i: int| 0 <= i < 64 ==> (r.has(i) <==> self.covers(i)),
    {
        proof {
            assert forall|i: int| 0 <= i < 64 implies (self.as_mask_spec().has(i)
                <==> self.covers(i)) by {
                let iu = i as u64;
                assert(iu < 64 ==> (((0xaa55_aa55_aa55_aa55u64 >> iu) & 1 == 1) <==> ((iu / 8 + iu
                    % 8) % 2 == 0)) && (((0x55aa_55aa_55aa_55aau64 >> iu) & 1 == 1) <==> ((iu / 8
                    + iu % 8) % 2 == 1))) by (bit_vector);
            }
        }
        match self {
            Shade::Dark => Mask::new(0xaa55_aa55_aa55_aa55),
            Shade::Light => Mask::new(0x55aa_55aa_55aa_55aa),
        }
    }
}

#[derive(Clone, Copy, PartialEq, Eq, Structural, PartialOrd, Ord, Debug)]
pub enum Rank {
    _1,
    _2,
    _3,
    _4,
    _5,
    _6,
    _7,
    _8,
}

impl Rank {
    /// The rank's number from 0.
    pub open spec fn ix(self) -> int {
        match self {
            Rank::_1 => 0,
            Rank::_2 => 1,
            Rank::_3 => 2,
            Rank::_4 => 3,
            Rank::_5 => 4,
            Rank::_6 => 5,
            Rank::_7 => 6,
            Rank::_8 => 7,
        }
    }

    /// The rank of number `e`, counted from 0.
    pub open spec fn of(e: int) -> Rank {
        if e == 0 {
            Rank::_1
        } else if e == 1 {
            Rank::_2
        } else if e == 2 {
            Rank::_3
        } else if e == 3 {
            Rank::_4
        } else if e == 4 {
            Rank::_5
        } else if e == 5 {
            Rank::_6
        } else if e == 6 {
            Rank::_7
        } else {
            Rank::_8
        }
    }

    pub open spec fn char_spec(self) -> char {
        match self {
            Rank::_1 => '1',
            Rank::_2 => '2',
            Rank::_3 => '3',
            Rank::_4 => '4',
            Rank::_5 => '5',
            Rank::_6 => '6',
            Rank::_7 => '7',
            Rank::_8 => '8',
        }
    }

    /// The rank that a character names, if it names one.
    pub open spec fn from_char_spec(c: char) -> Option<Rank> {
        if exists|r: Rank| r.char_spec() == c {
            Some(choose|r: Rank| r.char_spec() == c)
        } else {
            None
        }
    }

    /// The squares of this rank.
    pub fn as_mask(&self) -> (r: Mask)
        ensures
            r.0 == 0xffu64 << ((8 * self.ix()) as u64),
            forall|i: int| 0 <= i < 64 ==> (r.has(i) <==> i / 8 == self.ix()),
    {
        let k: u64 = 8 * (self.as_rank() as u64);
        let r = Mask::new(0xffu64 << k);
        proof {
            assert forall|i: int| 0 <= i < 64 implies (r.has(i) <==> i / 8 == self.ix()) by {
                let iu = i as u64;
                assert(iu < 64 && k <= 56 && k % 8 == 0 ==> ((((0xffu64 << k) >> iu) & 1 == 1)
                    <==> iu / 8 == k / 8)) by (bit_vector);
            }
        }
        r
    }

    pub fn rank(e: i8) -> (r: Option<Rank>)
        ensures
            r.is_some() <==> 0 <= e < 8,
            r.is_some() ==> r.unwrap() == Rank::of(e as int) && r.unwrap().ix() == e,
    {
        match e {
            0 => Some(Rank::_1),
            1 => Some(Rank::_2),
            2 => Some(Rank::_3),
            3 => Some(Rank::_4),
            4 => Some(Rank::_5),
            5 => Some(Rank::_6),
            6 => Some(Rank::_7),
            7 => Some(Rank::_8),
            _ => None,
        }
    }

    pub fn as_rank(&self) -> (r: i8)
        ensures
            r == self.ix(),
            0 <= r < 8,
    {
        match self {
            Rank::_1 => 0,
            Rank::_2 => 1,
            Rank::_3 => 2,
            Rank::_4 => 3,
            Rank::_5 => 4,
            Rank::_6 => 5,
            Rank::_7 => 6,
            Rank::_8 => 7,
        }
    }

    pub fn as_char(&self) -> (r: char)
        ensures
            r == self.char_spec(),
    {
        match self {
            Rank::_1 => '1',
            Rank::_2 => '2',
            Rank::_3 => '3',
            Rank::_4 => '4',
            Rank::_5 => '5',
            Rank::_6 => '6',
            Rank::_7 => '7',
            Rank::_8 => '8',
        }
    }

    pub fn from_char(c: char) -> (r: Option<Rank>)
        ensures
            r == Rank::from_char_spec(c),
            r.is_some() <==> ('1' <= c <= '8'),
            r.is_some() ==> r.unwrap().char_spec() == c,
    {
        let r = match c {
            '1' => Some(Rank::_1),
            '2' => Some(Rank::_2),
            '3' => Some(Rank::_3),
            '4' => Some(Rank::_4),
            '5' => Some(Rank::_5),
            '6' => Some(Rank::_6),
            '7' => Some(Rank::_7),
            '8' => Some(Rank::_8),
            _ => None,
        };
        proof {
            match r {
                Some(x) => {
                    assert(x.char_spec() == c);
                    let y = choose|y: Rank| y.char_spec() == c;
                    assert(y == x);
                },
                None => {
                    assert forall|y: Rank| y.char_spec() != c by {}
                },
            }
        }
        r
    }

    /// Reads a rank from the front of a string.
    pub fn read(s: &str) -> (r: Option<(Rank, &str)>)
        ensures
            r.is_some() <==> (s@.len() > 0 && Rank::from_char_spec(s@[0]).is_some()),
            r.is_some() ==> Some(r.unwrap().0) == Rank::from_char_spec(s@[0]) && r.unwrap().1@
                == s@.skip(1),
    {
        match split_first(s) {
            None => None,
            Some((c, rest)) => match Rank::from_char(c) {
                None => None,
                Some(p) => Some((p, rest)),
            },
        }
    }
}

#[derive(Clone, Copy, PartialEq, Eq, Structural, PartialOrd, Ord, Debug)]
pub enum File {
    A,
    B,
    C,
    D,
    E,
    F,
    G,
    H,
}

impl File {
    /// The file's number from 0.
    pub open spec fn ix(self) -> int {
        match self {
            File::A => 0,
            File::B => 1,
            File::C => 2,
            File::D => 3,
            File::E => 4,
            File::F => 5,
            File::G => 6,
            File::H => 7,
        }
    }

    /// The file of number `e`, counted from 0.
    pub open spec fn of(e: int) -> File {
        if e == 0 {
            File::A
        } else if e == 1 {
            File::B
        } else if e == 2 {
            File::C
        } else if e == 3 {
            File::D
        } else if e == 4 {
            File::E
        } else if e == 5 {
            File::F
        } else if e == 6 {
            File::G
        } else {
            File::H
        }
    }

    pub open spec fn char_spec(self) -> char {
        match self {
            File::A => 'a',
            File::B => 'b',
            File::C => 'c',
            File::D => 'd',
            File::E => 'e',
            File::F => 'f',
            File::G => 'g',
            File::H => 'h',
        }
    }

    /// The file that a character names, if it names one.
    pub open spec fn from_char_spec(c: char) -> Option<File> {
        if exists|f: File| f.char_spec() == c {
            Some(choose|f: File| f.char_spec() == c)
        } else {
            None
        }
    }

    /// The squares of this file.
    pub fn as_mask(&self) -> (r: Mask)
        ensures
            r.0 == 0x0101_0101_0101_0101u64 << (self.ix() as u64),
            forall|i: int| 0 <= i < 64 ==> (r.has(i) <==> i % 8 == self.ix()),
    {
        let k: u64 = self.as_file() as u64;
        let r = Mask::new(0x0101_0101_0101_0101u64 << k);
        proof {
            assert forall|i: int| 0 <= i < 64 implies (r.has(i) <==> i % 8 == self.ix()) by {
                let iu = i as u64;
                assert(iu < 64 && k < 8 ==> ((((0x0101_0101_0101_0101u64 << k) >> iu) & 1 == 1)
                    <==> iu % 8 == k)) by (bit_vector);
            }
        }
        r
    }

    pub fn file(e: i8) -> (r: Option<File>)
        ensures
            r.is_some() <==> 0 <= e < 8,
            r.is_some() ==> r.unwrap() == File::of(e as int) && r.unwrap().ix() == e,
    {
        match e {
            0 => Some(File::A),
            1 => Some(File::B),
            2 => Some(File::C),
            3 => Some(File::D),
            4 => Some(File::E),
            5 => Some(File::F),
            6 => Some(File::G),
            7 => Some(File::H),
            _ => None,
        }
    }

    pub fn as_file(&self) -> (r: i8)
        ensures
            r == self.ix(),
            0 <= r < 8,
    {
        match self {
            File::A => 0,
            File::B => 1,
            File::C => 2,
            File::D => 3,
            File::E => 4,
            File::F => 5,
            File::G => 6,
            File::H => 7,
        }
    }

    pub fn as_char(&self) -> (r: char)
        ensures
            r == self.char_spec(),
    {
        match self {
            File::A => 'a',
            File::B => 'b',
            File::C => 'c',
            File::D => 'd',
            File::E => 'e',
            File::F => 'f',
            File::G => 'g',
            File::H => 'h',
        }
    }

    pub fn from_char(c: char) -> (r: Option<File>)
        ensures
            r == File::from_char_spec(c),
            r.is_some() <==> ('a' <= c <= 'h'),
            r.is_some() ==> r.unwrap().char_spec() == c,
    {
        let r = match c {
            'a' => Some(File::A),
            'b' => Some(File::B),
            'c' => Some(File::C),
            'd' => Some(File::D),
            'e' => Some(File::E),
            'f' => Some(File::F),
            'g' => Some(File::G),
            'h' => Some(File::H),
            _ => None,
        };
        proof {
            match r {
                Some(x) => {
                    assert(x.char_spec() == c);
                    let y = choose|y: File| y.char_spec() == c;
                    assert(y == x);
                },
                None => {
                    assert forall|y: File| y.char_spec() != c by {}
                },
            }
        }
        r
    }

    /// Reads a file from the front of a string.
    pub fn read(s: &str) -> (r: Option<(File, &str)>)
        ensures
            r.is_some() <==> (s@.len() > 0 && File::from_char_spec(s@[0]).is_some()),
            r.is_some() ==> Some(r.unwrap().0) == File::from_char_spec(s@[0]) && r.unwrap().1@
                == s@.skip(1),
    {
        match split_first(s) {
            None => None,
            Some((c, rest)) => match File::from_char(c) {
                None => None,
                Some(p) => Some((p, rest)),
            },
        }
    }
}

#[derive(Clone, Copy, PartialEq, Eq, Structural, Debug)]
pub enum Piece {
    Pawn,
    Knight,
    Bishop,
    Rook,
    Queen,
    King,
}

impl Piece {
    pub open spec fn white_letter_spec(self) -> char {
        match self {
            Piece::Pawn => 'P',
            Piece::Knight => 'N',
            Piece::Bishop => 'B',
            Piece::Rook => 'R',
            Piece::Queen => 'Q',
            Piece::King => 'K',
        }
    }

    pub open spec fn black_letter_spec(self) -> char {
        match self {
            Piece::Pawn => 'p',
            Piece::Knight => 'n',
            Piece::Bishop => 'b',
            Piece::Rook => 'r',
            Piece::Queen => 'q',
            Piece::King => 'k',
        }
    }

    pub open spec fn white_unicode_spec(self) -> char {
        match self {
            Piece::Pawn => '\u{2659}',
            Piece::Knight => '\u{2658}',
            Piece::Bishop => '\u{2657}',
            Piece::Rook => '\u{2656}',
            Piece::Queen => '\u{2655}',
            Piece::King => '\u{2654}',
        }
    }

    pub open spec fn black_unicode_spec(self) -> char {
        match self {
            Piece::Pawn => '\u{265F}',
            Piece::Knight => '\u{265E}',
            Piece::Bishop => '\u{265D}',
            Piece::Rook => '\u{265C}',
            Piece::Queen => '\u{265B}',
            Piece::King => '\u{265A}',
        }
    }

    /// The piece kind that an upper-case letter names, if it names one.
    pub open spec fn from_letter_spec(c: char) -> Option<Piece> {
        if exists|p: Piece| p.white_letter_spec() == c {
            Some(choose|p: Piece| p.white_letter_spec() == c)
        } else {
            None
        }
    }

    /// What `read` makes of a string: the piece and how many characters it
    /// took for it.
    pub open spec fn read_spec(s: Seq<char>, implicit_pawn: bool) -> Option<(Piece, int)> {
        let named = if s.len() > 0 {
            Piece::from_letter_spec(s[0])
        } else {
            None
        };
        if named.is_some() && !(named == Some(Piece::Pawn) && implicit_pawn) {
            Some((named.unwrap(), 1))
        } else if implicit_pawn {
            Some((Piece::Pawn, 0))
        } else {
            None
        }
    }

    pub fn white_letter(&self) -> (r: char)
        ensures
            r == self.white_letter_spec(),
    {
        match self {
            Piece::Pawn => 'P',
            Piece::Knight => 'N',
            Piece::Bishop => 'B',
            Piece::Rook => 'R',
            Piece::Queen => 'Q',
            Piece::King => 'K',
        }
    }

    pub fn black_letter(&self) -> (r: char)
        ensures
            r == self.black_letter_spec(),
    {
        match self {
            Piece::Pawn => 'p',
            Piece::Knight => 'n',
            Piece::Bishop => 'b',
            Piece::Rook => 'r',
            Piece::Queen => 'q',
            Piece::King => 'k',
        }
    }

    pub fn black_unicode(&self) -> (r: char)
        ensures
            r == self.black_unicode_spec(),
    {
        match self {
            Piece::Pawn => '\u{265F}',
            Piece::Knight => '\u{265E}',
            Piece::Bishop => '\u{265D}',
            Piece::Rook => '\u{265C}',
            Piece::Queen => '\u{265B}',
            Piece::King => '\u{265A}',
        }
    }

    pub fn white_unicode(&self) -> (r: char)
        ensures
            r == self.white_unicode_spec(),
    {
        match self {
            Piece::Pawn => '\u{2659}',
            Piece::Knight => '\u{2658}',
            Piece::Bishop => '\u{2657}',
            Piece::Rook => '\u{2656}',
            Piece::Queen => '\u{2655}',
            Piece::King => '\u{2654}',
        }
    }

    /// The piece kind that an upper-case letter names.
    pub fn from_letter(c: char) -> (r: Option<Piece>)
        ensures
            r == Piece::from_letter_spec(c),
            r.is_some() ==> r.unwrap().white_letter_spec() == c,
    {
        let r = match c {
            'K' => Some(Piece::King),
            'Q' => Some(Piece::Queen),
            'R' => Some(Piece::Rook),
            'B' => Some(Piece::Bishop),
            'N' => Some(Piece::Knight),
            'P' => Some(Piece::Pawn),
            _ => None,
        };
        proof {
            match r {
                Some(x) => {
                    assert(x.white_letter_spec() == c);
                    let y = choose|y: Piece| y.white_letter_spec() == c;
                    assert(y == x);
                },
                None => {
                    assert forall|y: Piece| y.white_letter_spec() != c by {}
                },
            }
        }
        r
    }

    /// Reads a piece letter from the front of a string. With
    /// `implicit_pawn`, a string that starts with no piece letter, or with
    /// `P`, reads as a pawn and stays whole.
    pub fn read(s: &str, implicit_pawn: bool) -> (r: Option<(Piece, &str)>)
        ensures
            r.is_some() <==> Piece::read_spec(s@, implicit_pawn).is_some(),
            r.is_some() ==> r.unwrap().0 == Piece::read_spec(s@, implicit_pawn).unwrap().0
                && r.unwrap().1@ == s@.skip(Piece::read_spec(s@, implicit_pawn).unwrap().1),
    {
        let named = match split_first(s) {
            None => None,
            Some((c, rest)) => match Piece::from_letter(c) {
                None => None,
                Some(p) => Some((p, rest)),
            },
        };
        match named {
            Some((Piece::Pawn, rest)) => if implicit_pawn {
                assert(s@.skip(0) == s@);
                Some((Piece::Pawn, s))
            } else {
                Some((Piece::Pawn, rest))
            },
            Some((p, rest)) => Some((p, rest)),
            None => if implicit_pawn {
                assert(s@.skip(0) == s@);
                Some((Piece::Pawn, s))
            } else {
                None
            },
        }
    }
}

#[derive(Clone, Copy, PartialEq, Eq, Structural, Debug)]
pub enum Dir {
    North,
    NorthEast,
    East,
    SouthEast,
    South,
    SouthWest,
    West,
    NorthWest,
}

impl Dir {
    /// The step in files.
    pub open spec fn dx(self) -> int {
        match self {
            Dir::North | Dir::South => 0,
            Dir::NorthEast | Dir::East | Dir::SouthEast => 1,
            Dir::SouthWest | Dir::West | Dir::NorthWest => -1,
        }
    }

    /// The step in ranks.
    pub open spec fn dy(self) -> int {
        match self {
            Dir::East | Dir::West => 0,
            Dir::North | Dir::NorthEast | Dir::NorthWest => 1,
            Dir::SouthEast | Dir::South | Dir::SouthWest => -1,
        }
    }

    /// Whether a step this way raises the index of the square.
    pub open spec fn ascends(self) -> bool {
        8 * self.dy() + self.dx() > 0
    }

    /// The step in files and in ranks.
    pub fn as_offset(&self) -> (r: (i8, i8))
        ensures
            r.0 == self.dx(),
            r.1 == self.dy(),
    {
        match self {
            Dir::North => (0, 1),
            Dir::NorthEast => (1, 1),
            Dir::East => (1, 0),
            Dir::SouthEast => (1, -1),
            Dir::South => (0, -1),
            Dir::SouthWest => (-1, -1),
            Dir::West => (-1, 0),
            Dir::NorthWest => (-1, 1),
        }
    }
}

#[derive(Clone, Copy, PartialEq, Eq, Structural, Debug)]
pub enum ColorPiece {
    WhitePawn,
    WhiteKnight,
    WhiteBishop,
    WhiteRook,
    WhiteQueen,
    WhiteKing,
    BlackPawn,
    BlackKnight,
    BlackBishop,
    BlackRook,
    BlackQueen,
    BlackKing,
}

impl ColorPiece {
    pub open spec fn color_spec(self) -> Color {
        match self {
            ColorPiece::WhitePawn
            | ColorPiece::WhiteKnight
            | ColorPiece::WhiteBishop
            | ColorPiece::WhiteRook
            | ColorPiece::WhiteQueen
            | ColorPiece::WhiteKing => Color::White,
            _ => Color::Black,
        }
    }

    pub open spec fn piece_spec(self) -> Piece {
        match self {
            ColorPiece::WhitePawn | ColorPiece::BlackPawn => Piece::Pawn,
            ColorPiece::WhiteKnight | ColorPiece::BlackKnight => Piece::Knight,
            ColorPiece::WhiteBishop | ColorPiece::BlackBishop => Piece::Bishop,
            ColorPiece::WhiteRook | ColorPiece::BlackRook => Piece::Rook,
            ColorPiece::WhiteQueen | ColorPiece::BlackQueen => Piece::Queen,
            ColorPiece::WhiteKing | ColorPiece::BlackKing => Piece::King,
        }
    }

    /// The piece of a color and a kind.
    pub open spec fn of(c: Color, p: Piece) -> ColorPiece {
        match c {
            Color::White => match p {
                Piece::Pawn => ColorPiece::WhitePawn,
                Piece::Knight => ColorPiece::WhiteKnight,
                Piece::Bishop => ColorPiece::WhiteBishop,
                Piece::Rook => ColorPiece::WhiteRook,
                Piece::Queen => ColorPiece::WhiteQueen,
                Piece::King => ColorPiece::WhiteKing,
            },
            Color::Black => match p {
                Piece::Pawn => ColorPiece::BlackPawn,
                Piece::Knight => ColorPiece::BlackKnight,
                Piece::Bishop => ColorPiece::BlackBishop,
                Piece::Rook => ColorPiece::BlackRook,
                Piece::Queen => ColorPiece::BlackQueen,
                Piece::King => ColorPiece::BlackKing,
            },
        }
    }

    pub open spec fn letter_spec(self) -> char {
        match self.color_spec() {
            Color::White => self.piece_spec().white_letter_spec(),
            Color::Black => self.piece_spec().black_letter_spec(),
        }
    }

    pub open spec fn unicode_spec(self) -> char {
        match self.color_spec() {
            Color::White => self.piece_spec().white_unicode_spec(),
            Color::Black => self.piece_spec().black_unicode_spec(),
        }
    }

    /// The piece that a letter names, upper case for White, if it names one.
    pub open spec fn from_char_spec(c: char) -> Option<ColorPiece> {
        if exists|p: ColorPiece| p.letter_spec() == c {
            Some(choose|p: ColorPiece| p.letter_spec() == c)
        } else {
            None
        }
    }

    pub fn new(c: Color, p: Piece) -> (r: ColorPiece)
        ensures
            r == ColorPiece::of(c, p),
            r.color_spec() == c,
            r.piece_spec() == p,
    {
        match c {
            Color::White => match p {
                Piece::Pawn => ColorPiece::WhitePawn,
                Piece::Knight => ColorPiece::WhiteKnight,
                Piece::Bishop => ColorPiece::WhiteBishop,
                Piece::Rook => ColorPiece::WhiteRook,
                Piece::Queen => ColorPiece::WhiteQueen,
                Piece::King => ColorPiece::WhiteKing,
            },
            Color::Black => match p {
                Piece::Pawn => ColorPiece::BlackPawn,
                Piece::Knight => ColorPiece::BlackKnight,
                Piece::Bishop => ColorPiece::BlackBishop,
                Piece::Rook => ColorPiece::BlackRook,
                Piece::Queen => ColorPiece::BlackQueen,
                Piece::King => ColorPiece::BlackKing,
            },
        }
    }

    pub fn color(&self) -> (r: Color)
        ensures
            r == self.color_spec(),
    {
        self.split().0
    }

    pub fn piece(&self) -> (r: Piece)
        ensures
            r == self.piece_spec(),
    {
        self.split().1
    }

    pub fn split(&self) -> (r: (Color, Piece))
        ensures
            r.0 == self.color_spec(),
            r.1 == self.piece_spec(),
            ColorPiece::of(r.0, r.1) == *self,
    {
        match self {
            ColorPiece::WhitePawn => (Color::White, Piece::Pawn),
            ColorPiece::WhiteKnight => (Color::White, Piece::Knight),
            ColorPiece::WhiteBishop => (Color::White, Piece::Bishop),
            ColorPiece::WhiteRook => (Color::White, Piece::Rook),
            ColorPiece::WhiteQueen => (Color::White, Piece::Queen),
            ColorPiece::WhiteKing => (Color::White, Piece::King),
            ColorPiece::BlackPawn => (Color::Black, Piece::Pawn),
            ColorPiece::BlackKnight => (Color::Black, Piece::Knight),
            ColorPiece::BlackBishop => (Color::Black, Piece::Bishop),
            ColorPiece::BlackRook => (Color::Black, Piece::Rook),
            ColorPiece::BlackQueen => (Color::Black, Piece::Queen),
            ColorPiece::BlackKing => (Color::Black, Piece::King),
        }
    }

    pub fn letter(&self) -> (r: char)
        ensures
            r == self.letter_spec(),
    {
        match self.color() {
            Color::White => self.piece().white_letter(),
            Color::Black => self.piece().black_letter(),
        }
    }

    pub fn from_char(c: char) -> (r: Option<ColorPiece>)
        ensures
            r == ColorPiece::from_char_spec(c),
            r.is_some() ==> r.unwrap().letter_spec() == c,
    {
        let r = match c {
            'P' => Some(ColorPiece::WhitePawn),
            'N' => Some(ColorPiece::WhiteKnight),
            'B' => Some(ColorPiece::WhiteBishop),
            'R' => Some(ColorPiece::WhiteRook),
            'Q' => Some(ColorPiece::WhiteQueen),
            'K' => Some(ColorPiece::WhiteKing),
            'p' => Some(ColorPiece::BlackPawn),
            'n' => Some(ColorPiece::BlackKnight),
            'b' => Some(ColorPiece::BlackBishop),
            'r' => Some(ColorPiece::BlackRook),
            'q' => Some(ColorPiece::BlackQueen),
            'k' => Some(ColorPiece::BlackKing),
            _ => None,
        };
        proof {
            match r {
                Some(x) => {
                    assert(x.letter_spec() == c);
                    let y = choose|y: ColorPiece| y.letter_spec() == c;
                    assert(y == x);
                },
                None => {
                    assert forall|y: ColorPiece| y.letter_spec() != c by {}
                },
            }
        }
        r
    }

    pub fn unicode(&self) -> (r: char)
        ensures
            r == self.unicode_spec(),
    {
        match self.color() {
            Color::White => self.piece().white_unicode(),
            Color::Black => self.piece().black_unicode(),
        }
    }

    /// Reads a piece letter, upper case for White, from the front of a
    /// string.
    pub fn read(s: &str) -> (r: Option<(ColorPiece, &str)>)
        ensures
            r.is_some() <==> (s@.len() > 0 && ColorPiece::from_char_spec(s@[0]).is_some()),
            r.is_some() ==> Some(r.unwrap().0) == ColorPiece::from_char_spec(s@[0])
                && r.unwrap().1@ == s@.skip(1),
    {
        match split_first(s) {
            None => None,
            Some((c, rest)) => match ColorPiece::from_char(c) {
                None => None,
                Some(p) => Some((p, rest)),
            },
        }
    }
}

/// A value in thousandths of a pawn.
pub type Millipawns = i64;

/// A value in millionths of a pawn.
pub type Micropawns = i64;

/// One pawn in thousandths of a pawn.
pub const P: Millipawns = 1000;

/// What a won game is worth to the winner.
pub const VICTORY: Millipawns = 1_000_000_000;

/// What a lost game is worth to the loser.
pub const DEFEAT: Millipawns = -1_000_000_000;

#[derive(Clone, Copy, PartialEq, Eq, Structural, Debug)]
pub enum GameEnd {
    WhiteWins,
    BlackWins,
    Draw,
}

impl GameEnd {
    pub open spec fn value_spec(self, c: Color) -> Millipawns {
        match (self, c) {
            (GameEnd::Draw, _) => 0,
            (GameEnd::WhiteWins, Color::White) => VICTORY,
            (GameEnd::BlackWins, Color::Black) => VICTORY,
            _ => DEFEAT,
        }
    }

    pub open spec fn from_color_spec(c: Color) -> GameEnd {
        match c {
            Color::White => GameEnd::WhiteWins,
            Color::Black => GameEnd::BlackWins,
        }
    }

    /// What the result is worth to the side of color `c`.
    pub fn value(&self, c: Color) -> (r: Millipawns)
        ensures
            r == self.value_spec(c),
    {
        match (*self, c) {
            (GameEnd::Draw, _) => 0,
            (GameEnd::WhiteWins, Color::White) => VICTORY,
            (GameEnd::BlackWins, Color::Black) => VICTORY,
            _ => DEFEAT,
        }
    }

    /// The result in which the side of color `c` has won.
    pub fn from_color(c: Color) -> (r: GameEnd)
        ensures
            r == GameEnd::from_color_spec(c),
    {
        match c {
            Color::White => GameEnd::WhiteWins,
            Color::Black => GameEnd::BlackWins,
        }
    }

    /// The result as a score.
    pub fn to_str(&self) -> (r: &'static str)
        ensures
            r@ == (match self {
                GameEnd::WhiteWins => "1\u{2013}0"@,
                GameEnd::BlackWins => "0\u{2013}1"@,
                GameEnd::Draw => "\u{bd}\u{2013}\u{bd}"@,
            }),
    {
        match self {
            GameEnd::WhiteWins => "1\u{2013}0",
            GameEnd::BlackWins => "0\u{2013}1",
            GameEnd::Draw => "\u{bd}\u{2013}\u{bd}",
        }
    }
}

} // verus!
