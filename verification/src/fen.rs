//! Positions in Forsyth-Edwards notation: the pieces rank by rank from
//! the eighth, the side to move, the castling rights, the square of the
//! capture in passing, the clock of moves without capture or pawn move,
//! and the number of the move.

use vstd::prelude::*;
use vstd::string::{StrSliceExecFns, StringExecFns};
use crate::board::BitBoard;
use crate::boardmap::BoardMap;
use crate::castling::{CastlingDetails, CastlingInfo, CastlingRights};
use crate::enums::{Color, ColorPiece, File, Rank};
use crate::metadata::Metadata;
use crate::pieces::pawns::EnPassant;
use crate::squares::Square;
use crate::text::{decimal, digit, digit_char, write_decimal};

verus! {

/// The number of empty squares that a character stands for.
pub open spec fn run_of(c: char) -> int {
    if '1' <= c <= '8' {
        c as int - '0' as int
    } else {
        0
    }
}

/// `n` empty squares.
pub open spec fn empties(n: int) -> Seq<Option<ColorPiece>> {
    Seq::new(n as nat, |i: int| None::<ColorPiece>)
}

/// The rest of a rank from character `k` on, after the squares of `row`:
/// piece letters and digits for runs of empty squares, until eight files
/// are full.
pub open spec fn rank_from(s: Seq<char>, k: int, row: Seq<Option<ColorPiece>>) -> Option<
    (Seq<Option<ColorPiece>>, int),
>
    decreases 8 - row.len(),
{
    if row.len() >= 8 {
        Some((row, k))
    } else if k < 0 || k >= s.len() {
        None
    } else if ColorPiece::from_char_spec(s[k]).is_some() {
        rank_from(s, k + 1, row.push(ColorPiece::from_char_spec(s[k])))
    } else if run_of(s[k]) > 0 && row.len() + run_of(s[k]) <= 8 {
        rank_from(s, k + 1, row + empties(run_of(s[k])))
    } else {
        None
    }
}

/// The rest of the ranks from character `k` on, after the ranks of
/// `rows`: eight ranks with a `/` between them.
pub open spec fn ranks_from(s: Seq<char>, k: int, rows: Seq<Seq<Option<ColorPiece>>>) -> Option<
    (Seq<Seq<Option<ColorPiece>>>, int),
>
    decreases 8 - rows.len(),
{
    if rows.len() >= 8 {
        Some((rows, k))
    } else if rows.len() > 0 && !(0 <= k < s.len() && s[k] == '/') {
        None
    } else {
        let start = if rows.len() > 0 {
            k + 1
        } else {
            k
        };
        match rank_from(s, start, Seq::empty()) {
            None => None,
            Some((row, end)) => ranks_from(s, end, rows.push(row)),
        }
    }
}

/// What stands on each square when the ranks are given from the eighth
/// down.
pub open spec fn squares_of(rows: Seq<Seq<Option<ColorPiece>>>) -> Seq<Option<ColorPiece>> {
    Seq::new(64, |i: int| rows[7 - i / 8][i % 8])
}

/// Whether a character names a castling right.
pub open spec fn is_right(c: char) -> bool {
    c == 'K' || c == 'Q' || c == 'k' || c == 'q'
}

/// The rights of both sides with the one that a character names.
pub open spec fn with_right(rights: (CastlingRights, CastlingRights), c: char) -> (
    CastlingRights,
    CastlingRights,
) {
    if c == 'K' {
        (CastlingInfo { oo: true, ..rights.0 }, rights.1)
    } else if c == 'Q' {
        (CastlingInfo { ooo: true, ..rights.0 }, rights.1)
    } else if c == 'k' {
        (rights.0, CastlingInfo { oo: true, ..rights.1 })
    } else {
        (rights.0, CastlingInfo { ooo: true, ..rights.1 })
    }
}

/// The rights that the letters from character `k` on name, with those
/// of `rights`, and where the letters end.
pub open spec fn rights_from(s: Seq<char>, k: int, rights: (CastlingRights, CastlingRights)) -> (
    (CastlingRights, CastlingRights),
    int,
)
    decreases s.len() - k,
{
    if 0 <= k < s.len() && is_right(s[k]) {
        rights_from(s, k + 1, with_right(rights, s[k]))
    } else {
        (rights, k)
    }
}

/// No castling right for either side.
pub open spec fn no_rights() -> (CastlingRights, CastlingRights) {
    (CastlingInfo { ooo: false, oo: false }, CastlingInfo { ooo: false, oo: false })
}

/// The castling rights at character `k`: a `-` for none, or letters for
/// those there are.
pub open spec fn rights_at(s: Seq<char>, k: int) -> Option<((CastlingRights, CastlingRights), int)> {
    if 0 <= k < s.len() && s[k] == '-' {
        Some((no_rights(), k + 1))
    } else if rights_from(s, k, no_rights()).1 > k {
        Some(rights_from(s, k, no_rights()))
    } else {
        None
    }
}

/// The capture in passing at character `k`: a `-` for none, or the
/// square that the capturing pawn goes to, on the third or the sixth
/// rank; the pawn to capture stands before it.
pub open spec fn passing_at(s: Seq<char>, k: int) -> Option<(Option<EnPassant>, int)> {
    if 0 <= k < s.len() && s[k] == '-' {
        Some((None, k + 1))
    } else if 0 <= k && k + 1 < s.len() && File::from_char_spec(s[k]).is_some() && (s[k + 1] == '3'
        || s[k + 1] == '6') {
        let file = File::from_char_spec(s[k]).unwrap();
        if s[k + 1] == '3' {
            Some(
                (
                    Some(
                        EnPassant {
                            to: Square::at_spec(file, Rank::_3),
                            capture: Square::at_spec(file, Rank::_4),
                        },
                    ),
                    k + 2,
                ),
            )
        } else {
            Some(
                (
                    Some(
                        EnPassant {
                            to: Square::at_spec(file, Rank::_6),
                            capture: Square::at_spec(file, Rank::_5),
                        },
                    ),
                    k + 2,
                ),
            )
        }
    } else {
        None
    }
}

/// Where the decimal digits from character `k` on end.
pub open spec fn digits_end(s: Seq<char>, k: int) -> int
    decreases s.len() - k,
{
    if 0 <= k < s.len() && '0' <= s[k] <= '9' {
        digits_end(s, k + 1)
    } else {
        k
    }
}

/// The number that the decimal digits from character `k` up to `e`
/// write.
pub open spec fn digits_value(s: Seq<char>, k: int, e: int) -> int
    decreases e - k,
{
    if e <= k {
        0
    } else {
        10 * digits_value(s, k, e - 1) + (s[e - 1] as int - '0' as int)
    }
}

/// The number at character `k`: decimal digits that write a number of at
/// most 65535.
pub open spec fn number_at(s: Seq<char>, k: int) -> Option<(int, int)> {
    let e = digits_end(s, k);
    if e > k && digits_value(s, k, e) <= u16::MAX {
        Some((digits_value(s, k, e), e))
    } else {
        None
    }
}

/// The metadata that the side to move, the castling rights, the capture
/// in passing, the clock and the number of the move make: the tempo is
/// that of the move and the side, and the last change as many tempi
/// before it as the clock says. None where the clock says more than the
/// tempo, or the number of the move is 0 or more than 32768.
pub open spec fn metadata_of(
    to_move: Color,
    rights: (CastlingRights, CastlingRights),
    passing: Option<EnPassant>,
    clock: int,
    number: int,
) -> Option<Metadata> {
    let tempo = 2 * (number - 1) + (if to_move == Color::Black {
        1int
    } else {
        0int
    });
    if 1 <= number <= 32768 && 0 <= clock <= tempo {
        Some(
            Metadata {
                to_move,
                tempo: tempo as u16,
                last_change: (tempo - clock) as u16,
                white_castling: rights.0,
                black_castling: rights.1,
                castling_details: CastlingDetails::standard(),
                en_passant: passing,
            },
        )
    } else {
        None
    }
}

/// The color at character `k`: `w` or `b`.
pub open spec fn side_at(s: Seq<char>, k: int) -> Option<Color> {
    if 0 <= k < s.len() && s[k] == 'w' {
        Some(Color::White)
    } else if 0 <= k < s.len() && s[k] == 'b' {
        Some(Color::Black)
    } else {
        None
    }
}

/// Whether character `k` is a space.
pub open spec fn space_at(s: Seq<char>, k: int) -> bool {
    0 <= k < s.len() && s[k] == ' '
}

/// The position at the front of a text: what stands on each square, the
/// metadata, and how many characters the notation takes.
pub open spec fn fen_parts(s: Seq<char>) -> Option<(Seq<Option<ColorPiece>>, Metadata, int)> {
    match ranks_from(s, 0, Seq::empty()) {
        None => None,
        Some((rows, k1)) => match side_at(s, k1 + 1) {
            None => None,
            Some(to_move) => match rights_at(s, k1 + 3) {
                None => None,
                Some((rights, k2)) => match passing_at(s, k2 + 1) {
                    None => None,
                    Some((passing, k3)) => match number_at(s, k3 + 1) {
                        None => None,
                        Some((clock, k4)) => match number_at(s, k4 + 1) {
                            None => None,
                            Some((number, k5)) => if space_at(s, k1) && space_at(s, k1 + 2)
                                && space_at(s, k2) && space_at(s, k3) && space_at(s, k4) {
                                match metadata_of(to_move, rights, passing, clock, number) {
                                    Some(metadata) => Some((squares_of(rows), metadata, k5)),
                                    None => None,
                                }
                            } else {
                                None
                            },
                        },
                    },
                },
            },
        },
    }
}

/// The number of empty squares that a character stands for.
pub fn run(c: char) -> (r: usize)
    ensures
        r == run_of(c),
        r <= 8,
{
    match c {
        '1' => 1,
        '2' => 2,
        '3' => 3,
        '4' => 4,
        '5' => 5,
        '6' => 6,
        '7' => 7,
        '8' => 8,
        _ => 0,
    }
}

/// Reads one rank from character `at` on.
fn rank_at(s: &str, n: usize, at: usize) -> (r: Option<([Option<ColorPiece>; 8], usize)>)
    requires
        n == s@.len(),
        at <= n,
    ensures
        r.is_some() <==> rank_from(s@, at as int, Seq::empty()).is_some(),
        r matches Some((row, end)) ==> row@ == rank_from(s@, at as int, Seq::empty()).unwrap().0
            && end == rank_from(s@, at as int, Seq::empty()).unwrap().1 && at <= end <= n,
{
    let mut row: [Option<ColorPiece>; 8] = [None;8];
    let mut file: usize = 0;
    let mut k = at;
    proof {
        assert(row@.take(0) =~= Seq::<Option<ColorPiece>>::empty());
    }
    while file < 8
        invariant
            file <= 8,
            at <= k <= n,
            n == s@.len(),
            rank_from(s@, at as int, Seq::empty()) == rank_from(s@, k as int, row@.take(file as int)),
            forall|i: int| file <= i < 8 ==> row@[i].is_none(),
        decreases 8 - file,
    {
        if k >= n {
            return None;
        }
        let c = s.get_char(k);
        let ghost before = row@;
        match ColorPiece::from_char(c) {
            Some(p) => {
                row[file] = Some(p);
                proof {
                    assert(row@.take(file + 1) =~= before.take(file as int).push(Some(p)));
                }
                file += 1;
                k += 1;
            },
            None => {
                let d = run(c);
                if d == 0 || file + d > 8 {
                    return None;
                }
                proof {
                    assert(row@.take(file + d) =~= before.take(file as int) + empties(d as int));
                }
                file += d;
                k += 1;
            },
        }
    }
    proof {
        assert(row@.take(8) =~= row@);
    }
    Some((row, k))
}

/// Reads one rank from the front of a string.
pub fn read_fen_rank(s: &str) -> (r: Option<([Option<ColorPiece>; 8], &str)>)
    ensures
        r.is_some() <==> rank_from(s@, 0, Seq::empty()).is_some(),
        r matches Some((row, rest)) ==> row@ == rank_from(s@, 0, Seq::empty()).unwrap().0 && rest@
            == s@.skip(rank_from(s@, 0, Seq::empty()).unwrap().1),
{
    let n = s.unicode_len();
    match rank_at(s, n, 0) {
        None => None,
        Some((row, end)) => Some((row, s.substring_char(end, n))),
    }
}

/// Reads the eight ranks from character `at` on.
fn board_at(s: &str, n: usize, at: usize) -> (r: Option<(BoardMap<Option<ColorPiece>>, usize)>)
    requires
        n == s@.len(),
        at <= n,
    ensures
        r.is_some() <==> ranks_from(s@, at as int, Seq::empty()).is_some(),
        r matches Some((board, end)) ==> board@ == squares_of(
            ranks_from(s@, at as int, Seq::empty()).unwrap().0,
        ) && end == ranks_from(s@, at as int, Seq::empty()).unwrap().1 && at <= end <= n,
{
    let mut board: BoardMap<Option<ColorPiece>> = BoardMap::new_with(None);
    let mut done: usize = 0;
    let mut k = at;
    let ghost mut rows: Seq<Seq<Option<ColorPiece>>> = Seq::empty();
    while done < 8
        invariant
            done <= 8,
            at <= k <= n,
            n == s@.len(),
            rows.len() == done,
            board@.len() == 64,
            ranks_from(s@, at as int, Seq::empty()) == ranks_from(s@, k as int, rows),
            forall|j: int| 0 <= j < done ==> (#[trigger] rows[j]).len() == 8,
            forall|i: int|
                0 <= i < 64 && 7 - i / 8 < done ==> #[trigger] board@[i] == rows[7 - i / 8][i % 8],
        decreases 8 - done,
    {
        let mut start = k;
        if done > 0 {
            if k >= n || s.get_char(k) != '/' {
                return None;
            }
            start = k + 1;
        }
        let (row, end) = match rank_at(s, n, start) {
            None => {
                return None;
            },
            Some(x) => x,
        };
        let rank: usize = 7 - done;
        let mut file: usize = 0;
        let ghost shown = board@;
        while file < 8
            invariant
                file <= 8,
                rank == 7 - done,
                done < 8,
                board@.len() == 64,
                forall|i: int|
                    0 <= i < 64 && i / 8 != rank ==> #[trigger] board@[i] == shown[i],
                forall|i: int|
                    0 <= i < 64 && i / 8 == rank && i % 8 < file ==> #[trigger] board@[i]
                        == row@[i % 8],
            decreases 8 - file,
        {
            match Square::new((8 * rank + file) as i8) {
                Some(sq) => {
                    board.set(sq, row[file]);
                },
                None => {},
            }
            file += 1;
        }
        proof {
            let next = rows.push(row@);
            assert forall|i: int| 0 <= i < 64 && 7 - i / 8 < done + 1 implies #[trigger] board@[i]
                == next[7 - i / 8][i % 8] by {
                if i / 8 == rank {
                    assert(board@[i] == row@[i % 8]);
                } else {
                    assert(board@[i] == shown[i]);
                }
            }
            rows = next;
        }
        k = end;
        done += 1;
    }
    proof {
        assert(board@ =~= squares_of(rows));
    }
    Some((board, k))
}

/// Reads the eight ranks of a board from the front of a string.
pub fn read_fen_board(s: &str) -> (r: Option<(BoardMap<Option<ColorPiece>>, &str)>)
    ensures
        r.is_some() <==> ranks_from(s@, 0, Seq::empty()).is_some(),
        r matches Some((board, rest)) ==> board@ == squares_of(
            ranks_from(s@, 0, Seq::empty()).unwrap().0,
        ) && rest@ == s@.skip(ranks_from(s@, 0, Seq::empty()).unwrap().1),
{
    let n = s.unicode_len();
    match board_at(s, n, 0) {
        None => None,
        Some((board, end)) => Some((board, s.substring_char(end, n))),
    }
}

/// Reads the castling rights from character `at` on.
fn castling_at(s: &str, n: usize, at: usize) -> (r: Option<((CastlingRights, CastlingRights), usize)>)
    requires
        n == s@.len(),
        at <= n,
    ensures
        r.is_some() <==> rights_at(s@, at as int).is_some(),
        r matches Some((rights, end)) ==> rights == rights_at(s@, at as int).unwrap().0 && end
            == rights_at(s@, at as int).unwrap().1 && at < end <= n,
{
    if at < n && s.get_char(at) == '-' {
        return Some(
            (
                (CastlingInfo { ooo: false, oo: false }, CastlingInfo { ooo: false, oo: false }),
                at + 1,
            ),
        );
    }
    let mut white = CastlingInfo { ooo: false, oo: false };
    let mut black = CastlingInfo { ooo: false, oo: false };
    let mut k = at;
    let mut going = true;
    while going && k < n
        invariant
            at <= k <= n,
            n == s@.len(),
            rights_from(s@, at as int, no_rights()) == rights_from(s@, k as int, (white, black)),
            !going ==> k < n && !is_right(s@[k as int]),
        decreases n - k + (if going {
            1int
        } else {
            0int
        }),
    {
        let c = s.get_char(k);
        if c == 'K' {
            white.oo = true;
            k += 1;
        } else if c == 'Q' {
            white.ooo = true;
            k += 1;
        } else if c == 'k' {
            black.oo = true;
            k += 1;
        } else if c == 'q' {
            black.ooo = true;
            k += 1;
        } else {
            going = false;
        }
    }
    if k > at {
        Some(((white, black), k))
    } else {
        None
    }
}

/// Reads the capture in passing from character `at` on.
fn en_passant_at(s: &str, n: usize, at: usize) -> (r: Option<(Option<EnPassant>, usize)>)
    requires
        n == s@.len(),
        at <= n,
    ensures
        r.is_some() <==> passing_at(s@, at as int).is_some(),
        r matches Some((passing, end)) ==> passing == passing_at(s@, at as int).unwrap().0 && end
            == passing_at(s@, at as int).unwrap().1 && at < end <= n,
{
    if at >= n {
        return None;
    }
    let c = s.get_char(at);
    if c == '-' {
        return Some((None, at + 1));
    }
    if n - at < 2 {
        return None;
    }
    let file = match File::from_char(c) {
        None => {
            return None;
        },
        Some(f) => f,
    };
    let d = s.get_char(at + 1);
    if d == '3' {
        Some(
            (
                Some(
                    EnPassant {
                        to: Square::at(file, Rank::_3),
                        capture: Square::at(file, Rank::_4),
                    },
                ),
                at + 2,
            ),
        )
    } else if d == '6' {
        Some(
            (
                Some(
                    EnPassant {
                        to: Square::at(file, Rank::_6),
                        capture: Square::at(file, Rank::_5),
                    },
                ),
                at + 2,
            ),
        )
    } else {
        None
    }
}

/// A number whose digits write more than 65535 stays above it however
/// many digits follow.
proof fn lemma_digits_grow(s: Seq<char>, k: int, e: int, f: int)
    requires
        0 <= k <= e <= f <= s.len(),
        forall|i: int| k <= i < f ==> '0' <= #[trigger] s[i] <= '9',
    ensures
        digits_value(s, k, e) <= digits_value(s, k, f),
        0 <= digits_value(s, k, e),
    decreases f - k,
{
    if e > k {
        lemma_digits_grow(s, k, e - 1, e - 1);
    }
    if f > e {
        lemma_digits_grow(s, k, e, f - 1);
        lemma_digits_grow(s, k, f - 1, f - 1);
    }
}

/// Where the digits end, they have been digits all along.
proof fn lemma_digits_end(s: Seq<char>, k: int)
    requires
        0 <= k <= s.len(),
    ensures
        k <= digits_end(s, k) <= s.len(),
        forall|i: int| k <= i < digits_end(s, k) ==> '0' <= #[trigger] s[i] <= '9',
        digits_end(s, k) < s.len() ==> !('0' <= s[digits_end(s, k)] <= '9'),
    decreases s.len() - k,
{
    if k < s.len() && '0' <= s[k] <= '9' {
        lemma_digits_end(s, k + 1);
    }
}

/// Reads a number of at most 65535 from character `at` on.
fn number(s: &str, n: usize, at: usize) -> (r: Option<(u16, usize)>)
    requires
        n == s@.len(),
        at <= n,
    ensures
        r.is_some() <==> number_at(s@, at as int).is_some(),
        r matches Some((value, end)) ==> value == number_at(s@, at as int).unwrap().0 && end
            == number_at(s@, at as int).unwrap().1 && at < end <= n,
{
    let mut k = at;
    let mut acc: u32 = 0;
    let mut going = true;
    proof {
        lemma_digits_end(s@, at as int);
    }
    while going && k < n
        invariant
            at <= k <= n,
            n == s@.len(),
            k <= digits_end(s@, at as int) <= n,
            digits_end(s@, at as int) == digits_end(s@, k as int),
            acc == digits_value(s@, at as int, k as int),
            acc <= u16::MAX,
            forall|i: int| at <= i < digits_end(s@, at as int) ==> '0' <= #[trigger] s@[i] <= '9',
            !going ==> k < n && !('0' <= s@[k as int] <= '9'),
        decreases n - k + (if going {
            1int
        } else {
            0int
        }),
    {
        let c = s.get_char(k);
        if c < '0' || c > '9' {
            going = false;
        } else {
            let d = c as u32 - '0' as u32;
            let next = 10 * acc + d;
            proof {
                lemma_digits_end(s@, k + 1);
            }
            if next > 65535 {
                proof {
                    lemma_digits_grow(s@, at as int, k + 1, digits_end(s@, at as int));
                }
                return None;
            }
            acc = next;
            k += 1;
        }
    }
    if k > at {
        Some((acc as u16, k))
    } else {
        None
    }
}

/// Reads a position from the front of a string.
pub fn read_fen(s: &str) -> (r: Option<(BitBoard, &str)>)
    ensures
        r.is_some() <==> fen_parts(s@).is_some(),
        r matches Some((board, rest)) ==> board.shows(fen_parts(s@).unwrap().0) && board.metadata
            == fen_parts(s@).unwrap().1 && rest@ == s@.skip(fen_parts(s@).unwrap().2),
{
    let n = s.unicode_len();
    let (squares, k1) = match board_at(s, n, 0) {
        None => {
            return None;
        },
        Some(x) => x,
    };
    if n - k1 < 3 {
        proof {
            assert(fen_parts(s@).is_none());
        }
        return None;
    }
    let side = s.get_char(k1 + 1);
    let to_move = if side == 'w' {
        Color::White
    } else if side == 'b' {
        Color::Black
    } else {
        return None;
    };
    let (rights, k2) = match castling_at(s, n, k1 + 3) {
        None => {
            return None;
        },
        Some(x) => x,
    };
    if k2 >= n {
        return None;
    }
    let (passing, k3) = match en_passant_at(s, n, k2 + 1) {
        None => {
            return None;
        },
        Some(x) => x,
    };
    if k3 >= n {
        return None;
    }
    let (clock, k4) = match number(s, n, k3 + 1) {
        None => {
            return None;
        },
        Some(x) => x,
    };
    if k4 >= n {
        return None;
    }
    let (count, k5) = match number(s, n, k4 + 1) {
        None => {
            return None;
        },
        Some(x) => x,
    };
    if s.get_char(k1) != ' ' || s.get_char(k1 + 2) != ' ' || s.get_char(k2) != ' ' || s.get_char(k3)
        != ' ' || s.get_char(k4) != ' ' {
        return None;
    }
    if count < 1 || count > 32768 {
        return None;
    }
    let tempo: u16 = 2 * (count - 1) + (if to_move == Color::Black {
        1
    } else {
        0
    });
    if clock > tempo {
        return None;
    }
    let metadata = Metadata {
        to_move,
        tempo,
        last_change: tempo - clock,
        white_castling: rights.0,
        black_castling: rights.1,
        castling_details: CastlingDetails::new(),
        en_passant: passing,
    };
    Some((BitBoard::new_board(&squares, metadata), s.substring_char(k5, n)))
}

/// What stands on a square of a position: a piece of White if one
/// stands there, else a piece of Black if one does.
pub open spec fn stands_at(board: BitBoard, i: int) -> Option<ColorPiece> {
    match board.white.piece_at_spec(Square::of(i)) {
        Some(p) => Some(ColorPiece::of(Color::White, p)),
        None => match board.black.piece_at_spec(Square::of(i)) {
            Some(p) => Some(ColorPiece::of(Color::Black, p)),
            None => None,
        },
    }
}

/// The text of a rank from a file on, after a run of empty squares: the
/// letters of the pieces, and digits for the runs of empty squares.
pub open spec fn rank_text(board: BitBoard, rank: int, file: int, empty: int) -> Seq<char>
    decreases 8 - file,
{
    let gap = if empty > 0 {
        seq![digit_char(empty)]
    } else {
        Seq::<char>::empty()
    };
    if file >= 8 {
        gap
    } else {
        match stands_at(board, 8 * rank + file) {
            Some(p) => gap + seq![p.letter_spec()] + rank_text(board, rank, file + 1, 0),
            None => rank_text(board, rank, file + 1, empty + 1),
        }
    }
}

/// The text of the ranks from a rank down, with a `/` between them.
pub open spec fn ranks_text(board: BitBoard, rank: int) -> Seq<char>
    decreases rank,
{
    if rank <= 0 {
        rank_text(board, 0, 0, 0)
    } else {
        rank_text(board, rank, 0, 0) + seq!['/'] + ranks_text(board, rank - 1)
    }
}

/// The text of the castling rights: the letters of those there are, or a
/// `-`.
pub open spec fn rights_text(white: CastlingRights, black: CastlingRights) -> Seq<char> {
    if !white.oo && !white.ooo && !black.oo && !black.ooo {
        seq!['-']
    } else {
        (if white.oo {
            seq!['K']
        } else {
            Seq::<char>::empty()
        }) + (if white.ooo {
            seq!['Q']
        } else {
            Seq::<char>::empty()
        }) + (if black.oo {
            seq!['k']
        } else {
            Seq::<char>::empty()
        }) + (if black.ooo {
            seq!['q']
        } else {
            Seq::<char>::empty()
        })
    }
}

/// The text of the side to move and the castling rights, each after a
/// space.
pub open spec fn side_text(metadata: Metadata) -> Seq<char> {
    seq![' ', match metadata.to_move {
        Color::White => 'w',
        Color::Black => 'b',
    }, ' '] + rights_text(metadata.white_castling, metadata.black_castling)
}

/// The text of the square of the capture in passing after a space; a `-`
/// where none is open.
pub open spec fn passing_text(metadata: Metadata) -> Seq<char> {
    seq![' '] + (match metadata.en_passant {
        Some(ep) => ep.to.text(),
        None => seq!['-'],
    })
}

/// The text of the clock and of the number of the move, each after a
/// space.
pub open spec fn clocks_text(metadata: Metadata) -> Seq<char> {
    let clock = if metadata.tempo >= metadata.last_change {
        (metadata.tempo - metadata.last_change) as nat
    } else {
        0nat
    };
    seq![' '] + decimal(clock) + seq![' '] + decimal((metadata.tempo / 2 + 1) as nat)
}

/// The text of the metadata: the side to move, the castling rights, the
/// square of the capture in passing, the clock and the number of the
/// move, each after a space.
pub open spec fn metadata_text(metadata: Metadata) -> Seq<char> {
    side_text(metadata) + passing_text(metadata) + clocks_text(metadata)
}

/// The text of a position.
pub open spec fn fen_text(board: BitBoard) -> Seq<char> {
    ranks_text(board, 7) + metadata_text(board.metadata)
}

/// What stands on a square of a position.
pub fn piece_on(board: &BitBoard, sq: Square) -> (r: Option<ColorPiece>)
    ensures
        r == stands_at(*board, sq@),
{
    proof {
        use_type_invariant(sq);
        crate::squares::lemma_square_of_view(sq);
    }
    match board.white.piece_at(sq) {
        Some(p) => Some(ColorPiece::new(Color::White, p)),
        None => match board.black.piece_at(sq) {
            Some(p) => Some(ColorPiece::new(Color::Black, p)),
            None => None,
        },
    }
}

/// Writes one rank at the end of a string.
fn write_rank(board: &BitBoard, rank: u8, out: &mut String)
    requires
        rank < 8,
    ensures
        final(out)@ == old(out)@ + rank_text(*board, rank as int, 0, 0),
{
    let mut file: u8 = 0;
    let mut empty: u8 = 0;
    while file < 8
        invariant
            file <= 8,
            empty <= file,
            rank < 8,
            out@ + rank_text(*board, rank as int, file as int, empty as int) == old(out)@
                + rank_text(*board, rank as int, 0, 0),
        decreases 8 - file,
    {
        let ghost before = out@;
        let ghost rest = rank_text(*board, rank as int, file as int, empty as int);
        match Square::new((8 * rank + file) as i8) {
            Some(sq) => {
                match piece_on(board, sq) {
                    Some(p) => {
                        if empty > 0 {
                            out.push(digit(empty as u64));
                        }
                        out.push(p.letter());
                        proof {
                            let gap = if empty > 0 {
                                seq![digit_char(empty as int)]
                            } else {
                                Seq::<char>::empty()
                            };
                            let tail = rank_text(*board, rank as int, file + 1, 0);
                            assert(rest == gap + seq![p.letter_spec()] + tail);
                            assert(out@ + tail =~= before + rest);
                        }
                        empty = 0;
                    },
                    None => {
                        empty += 1;
                    },
                }
            },
            None => {},
        }
        file += 1;
    }
    let ghost before = out@;
    if empty > 0 {
        out.push(digit(empty as u64));
    }
    proof {
        assert(out@ =~= before + rank_text(*board, rank as int, 8, empty as int));
    }
}

/// Writes the castling rights at the end of a string.
fn write_rights(white: CastlingRights, black: CastlingRights, out: &mut String)
    ensures
        final(out)@ == old(out)@ + rights_text(white, black),
{
    if !white.oo && !white.ooo && !black.oo && !black.ooo {
        out.push('-');
    } else {
        if white.oo {
            out.push('K');
        }
        if white.ooo {
            out.push('Q');
        }
        if black.oo {
            out.push('k');
        }
        if black.ooo {
            out.push('q');
        }
    }
    assert(out@ =~= old(out)@ + rights_text(white, black));
}

/// Writes the side to move and the castling rights at the end of a
/// string.
fn write_side(metadata: &Metadata, out: &mut String)
    ensures
        final(out)@ == old(out)@ + side_text(*metadata),
{
    out.push(' ');
    out.push(
        match metadata.to_move {
            Color::White => 'w',
            Color::Black => 'b',
        },
    );
    out.push(' ');
    write_rights(metadata.white_castling, metadata.black_castling, out);
    assert(out@ =~= old(out)@ + side_text(*metadata));
}

/// Writes the square of the capture in passing at the end of a string.
fn write_passing(metadata: &Metadata, out: &mut String)
    ensures
        final(out)@ == old(out)@ + passing_text(*metadata),
{
    out.push(' ');
    match metadata.en_passant {
        Some(ep) => {
            ep.to.write(out);
        },
        None => {
            out.push('-');
        },
    }
    assert(out@ =~= old(out)@ + passing_text(*metadata));
}

/// Writes the clock and the number of the move at the end of a string.
fn write_clocks(metadata: &Metadata, out: &mut String)
    ensures
        final(out)@ == old(out)@ + clocks_text(*metadata),
{
    let clock = if metadata.tempo >= metadata.last_change {
        metadata.tempo - metadata.last_change
    } else {
        0
    };
    out.push(' ');
    write_decimal(clock as u64, out);
    out.push(' ');
    write_decimal((metadata.tempo / 2 + 1) as u64, out);
    assert(out@ =~= old(out)@ + clocks_text(*metadata));
}

/// Writes the metadata at the end of a string.
fn write_metadata(metadata: &Metadata, out: &mut String)
    ensures
        final(out)@ == old(out)@ + metadata_text(*metadata),
{
    write_side(metadata, out);
    write_passing(metadata, out);
    write_clocks(metadata, out);
    assert(out@ =~= old(out)@ + metadata_text(*metadata));
}

/// The position as text.
pub fn fen(board: &BitBoard) -> (r: String)
    ensures
        r@ == fen_text(*board),
{
    let mut out = String::new();
    let mut rank: u8 = 7;
    loop
        invariant_except_break
            rank < 8,
            out@ + ranks_text(*board, rank as int) == ranks_text(*board, 7),
        ensures
            out@ == ranks_text(*board, 7),
        decreases rank,
    {
        let ghost before = out@;
        write_rank(board, rank, &mut out);
        if rank == 0 {
            proof {
                assert(out@ =~= before + ranks_text(*board, 0));
            }
            break ;
        }
        out.push('/');
        proof {
            assert(out@ + ranks_text(*board, rank - 1) =~= before + ranks_text(
                *board,
                rank as int,
            ));
        }
        rank -= 1;
    }
    write_metadata(&board.metadata, &mut out);
    out
}

} // verus!
