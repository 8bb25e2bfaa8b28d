//! The commands of a game at the terminal: what a line of words asks
//! for.

use vstd::prelude::*;
use vstd::string::StrSliceExecFns;
use crate::castling::{CastlingInfo, CastlingRights};
use crate::enums::{Color, ColorPiece};
use crate::notation::{algebraic_text, Algebraic};
use crate::squares::Square;
use crate::notation::square_text;

verus! {

/// What a line asks for.
#[derive(Clone, Copy, PartialEq, Eq, Debug)]
pub enum Command {
    /// No word on the line.
    Empty,
    /// Leave.
    Exit,
    /// Draw the board anew.
    Clear,
    /// Set up a new game.
    New,
    /// Clear the board.
    Reset,
    /// Show what a color attacks, or the side to move.
    Threats(Option<Color>),
    /// Show nothing special.
    Quiet,
    /// Put a piece on a square.
    Insert(ColorPiece, Square),
    /// Take what stands on a square off the board.
    Delete(Square),
    /// Give a color the move.
    ToMove(Color),
    /// List the legal moves.
    List,
    /// Make random moves.
    Random(usize),
    /// Show the moves made.
    Log,
    /// Forget the moves made.
    LogClear,
    /// Show the metadata.
    Meta,
    /// Set the castling rights of a color.
    Castling(Color, CastlingRights),
    /// A line that asks for castling rights and names no color.
    CastlingOfNone,
    /// Make a move.
    Move(Algebraic),
    /// A line to put a piece that does not name a piece and a square.
    BadInsert,
    /// A line to take a piece that does not name a square.
    BadDelete,
    /// Anything else.
    Unrecognized,
}

/// The number that decimal digits write, read from the left, as long as
/// it fits the machine; none for anything else.
pub open spec fn count_text(s: Seq<char>, n: int) -> Option<int>
    decreases n,
{
    if n <= 0 {
        Some(0)
    } else {
        match count_text(s, n - 1) {
            None => None,
            Some(before) => {
                let c = s[n - 1];
                if '0' <= c <= '9' && 10 * before + (c as int - '0' as int) <= usize::MAX {
                    Some(10 * before + (c as int - '0' as int))
                } else {
                    None
                }
            },
        }
    }
}

/// The color that a word names: `w` or `W`, `b` or `B`.
pub open spec fn color_word(s: Seq<char>) -> Option<Color> {
    if s == "W"@ || s == "w"@ {
        Some(Color::White)
    } else if s == "B"@ || s == "b"@ {
        Some(Color::Black)
    } else {
        None
    }
}

/// Whether one of the words from the second on is the given one.
pub open spec fn says(words: Seq<Seq<char>>, word: Seq<char>) -> bool {
    exists|i: int| 1 <= i < words.len() && words[i] == word
}

/// The piece and the square that two words name, each in full.
pub open spec fn insert_words(p: Seq<char>, s: Seq<char>) -> Option<(ColorPiece, Square)> {
    if p.len() == 1 && ColorPiece::from_char_spec(p[0]).is_some() && square_text(s).is_some()
        && s.len() == 2 {
        Some((ColorPiece::from_char_spec(p[0]).unwrap(), square_text(s).unwrap().0))
    } else {
        None
    }
}

/// What a line of words asks for.
pub open spec fn command_of(words: Seq<Seq<char>>) -> Command {
    if words.len() == 0 {
        Command::Empty
    } else {
        let first = words[0];
        if first == "exit"@ {
            Command::Exit
        } else if first == "clear"@ {
            Command::Clear
        } else if first == "new"@ {
            Command::New
        } else if first == "reset"@ {
            Command::Reset
        } else if first == "threats"@ {
            Command::Threats(
                if words.len() > 1 {
                    color_word(words[1])
                } else {
                    None
                },
            )
        } else if first == "q"@ {
            Command::Quiet
        } else if first == "i"@ {
            if words.len() > 2 {
                match insert_words(words[1], words[2]) {
                    Some((p, sq)) => Command::Insert(p, sq),
                    None => Command::BadInsert,
                }
            } else {
                Command::BadInsert
            }
        } else if first == "d"@ {
            if words.len() > 1 && square_text(words[1]).is_some() && words[1].len() == 2 {
                Command::Delete(square_text(words[1]).unwrap().0)
            } else {
                Command::BadDelete
            }
        } else if first == "w"@ {
            Command::ToMove(Color::White)
        } else if first == "b"@ {
            Command::ToMove(Color::Black)
        } else if first == "ls"@ {
            Command::List
        } else if first == "r"@ {
            Command::Random(
                if words.len() > 1 && words[1].len() > 0 {
                    match count_text(words[1], words[1].len() as int) {
                        Some(n) => n as usize,
                        None => 1,
                    }
                } else {
                    1
                },
            )
        } else if first == "log"@ {
            if words.len() > 1 && words[1] == "clear"@ {
                Command::LogClear
            } else {
                Command::Log
            }
        } else if first == "meta"@ {
            Command::Meta
        } else if first == "cast"@ {
            match (if words.len() > 1 {
                color_word(words[1])
            } else {
                None
            }) {
                Some(c) => Command::Castling(
                    c,
                    CastlingInfo { ooo: says(words, "ooo"@), oo: says(words, "oo"@) },
                ),
                None => Command::CastlingOfNone,
            }
        } else {
            match algebraic_text(first) {
                Some((a, n)) => if n == first.len() {
                    Command::Move(a)
                } else {
                    Command::Unrecognized
                },
                None => Command::Unrecognized,
            }
        }
    }
}

/// The words of a line, as texts.
pub open spec fn texts(words: Seq<&str>) -> Seq<Seq<char>> {
    Seq::new(words.len(), |i: int| words[i]@)
}

/// Whether two strings are the same.
pub fn same(a: &str, b: &str) -> (r: bool)
    ensures
        r <==> a@ == b@,
{
    let n = a.unicode_len();
    if n != b.unicode_len() {
        return false;
    }
    let mut i: usize = 0;
    while i < n
        invariant
            i <= n,
            n == a@.len(),
            n == b@.len(),
            forall|j: int| 0 <= j < i ==> a@[j] == b@[j],
        decreases n - i,
    {
        if a.get_char(i) != b.get_char(i) {
            return false;
        }
        i += 1;
    }
    assert(a@ =~= b@);
    true
}

/// The color that a word names.
pub fn read_color(s: &str) -> (r: Option<Color>)
    ensures
        r == color_word(s@),
{
    if same(s, "W") || same(s, "w") {
        Some(Color::White)
    } else if same(s, "B") || same(s, "b") {
        Some(Color::Black)
    } else {
        None
    }
}

/// The number that a word writes in decimal digits, if it fits.
pub fn read_count(s: &str) -> (r: Option<usize>)
    ensures
        r.is_some() <==> count_text(s@, s@.len() as int).is_some(),
        r.is_some() ==> r.unwrap() == count_text(s@, s@.len() as int).unwrap(),
{
    let n = s.unicode_len();
    let mut i: usize = 0;
    let mut acc: usize = 0;
    while i < n
        invariant
            i <= n,
            n == s@.len(),
            count_text(s@, i as int) == Some(acc as int),
        decreases n - i,
    {
        let c = s.get_char(i);
        if c < '0' || c > '9' {
            proof {
                lemma_count_fails(s@, i + 1, n as int);
            }
            return None;
        }
        let d = (c as u32 - '0' as u32) as usize;
        if acc > (usize::MAX - d) / 10 {
            proof {
                lemma_count_fails(s@, i + 1, n as int);
            }
            return None;
        }
        acc = 10 * acc + d;
        i += 1;
    }
    Some(acc)
}

/// A number that cannot be read up to some digit cannot be read
/// further.
pub proof fn lemma_count_fails(s: Seq<char>, k: int, n: int)
    requires
        0 <= k <= n,
        count_text(s, k).is_none(),
    ensures
        count_text(s, n).is_none(),
    decreases n - k,
{
    if k < n {
        lemma_count_fails(s, k, n - 1);
    }
}

/// Whether one of the words from the second on is the given one.
pub fn mentions(words: &[&str], word: &str) -> (r: bool)
    ensures
        r == says(texts(words@), word@),
{
    let mut i: usize = 1;
    while i < words.len()
        invariant
            1 <= i,
            forall|j: int| 1 <= j < i && j < words@.len() ==> words@[j]@ != word@,
        decreases words@.len() - i,
    {
        if same(words[i], word) {
            assert(texts(words@)[i as int] == word@);
            return true;
        }
        i += 1;
    }
    assert forall|j: int| 1 <= j < texts(words@).len() implies texts(words@)[j] != word@ by {
        assert(texts(words@)[j] == words@[j]@);
    }
    false
}

/// What a line of words asks for.
pub fn read_command(words: &[&str]) -> (r: Command)
    ensures
        r == command_of(texts(words@)),
{
    let ghost line = texts(words@);
    if words.len() == 0 {
        return Command::Empty;
    }
    let first = words[0];
    assert(line[0] == first@);
    assert(words.len() > 1 ==> line[1] == words@[1]@);
    assert(words.len() > 2 ==> line[2] == words@[2]@);
    if same(first, "exit") {
        Command::Exit
    } else if same(first, "clear") {
        Command::Clear
    } else if same(first, "new") {
        Command::New
    } else if same(first, "reset") {
        Command::Reset
    } else if same(first, "threats") {
        Command::Threats(
            if words.len() > 1 {
                read_color(words[1])
            } else {
                None
            },
        )
    } else if same(first, "q") {
        Command::Quiet
    } else if same(first, "i") {
        if words.len() > 2 {
            match (ColorPiece::read(words[1]), Square::read(words[2])) {
                (Some((p, rest1)), Some((sq, rest2))) => {
                    if rest1.unicode_len() == 0 && rest2.unicode_len() == 0 {
                        Command::Insert(p, sq)
                    } else {
                        Command::BadInsert
                    }
                },
                _ => Command::BadInsert,
            }
        } else {
            Command::BadInsert
        }
    } else if same(first, "d") {
        if words.len() > 1 {
            match Square::read(words[1]) {
                Some((sq, rest)) => {
                    if rest.unicode_len() == 0 {
                        Command::Delete(sq)
                    } else {
                        Command::BadDelete
                    }
                },
                None => Command::BadDelete,
            }
        } else {
            Command::BadDelete
        }
    } else if same(first, "w") {
        Command::ToMove(Color::White)
    } else if same(first, "b") {
        Command::ToMove(Color::Black)
    } else if same(first, "ls") {
        Command::List
    } else if same(first, "r") {
        Command::Random(
            if words.len() > 1 && words[1].unicode_len() > 0 {
                match read_count(words[1]) {
                    Some(n) => n,
                    None => 1,
                }
            } else {
                1
            },
        )
    } else if same(first, "log") {
        if words.len() > 1 && same(words[1], "clear") {
            Command::LogClear
        } else {
            Command::Log
        }
    } else if same(first, "meta") {
        Command::Meta
    } else if same(first, "cast") {
        let color = if words.len() > 1 {
            read_color(words[1])
        } else {
            None
        };
        match color {
            Some(c) => Command::Castling(
                c,
                CastlingInfo { ooo: mentions(words, "ooo"), oo: mentions(words, "oo") },
            ),
            None => Command::CastlingOfNone,
        }
    } else {
        match Algebraic::read(first) {
            Some((a, rest)) => {
                if rest.unicode_len() == 0 {
                    Command::Move(a)
                } else {
                    Command::Unrecognized
                }
            },
            None => Command::Unrecognized,
        }
    }
}

} // verus!
