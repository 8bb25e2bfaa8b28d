//! Squares of the board by index: a1 is 0, b1 is 1, h8 is 63.

use vstd::prelude::*;
use crate::bits::{group_bit_facts, lowest, single};
use crate::enums::{Dir, File, Rank};
use crate::masks::Mask;
use crate::moves::ProtoMove;

verus! {

/// A square of the board. Every value of the type lies on the board.
#[derive(Clone, Copy, PartialEq, Eq, Structural, PartialOrd, Ord, Debug)]
pub struct Square {
    pub(crate) idx: u8,
}

impl View for Square {
    type V = int;

    /// The index of the square: eight times the rank plus the file, both
    /// counted from 0.
    open(crate) spec fn view(&self) -> int {
        self.idx as int
    }
}

impl Square {
    #[verifier::type_invariant]
    pub open(crate) spec fn on_board(self) -> bool {
        self.idx < 64
    }

    /// The square of index `i`.
    pub open(crate) spec fn of(i: int) -> Square {
        Square { idx: i as u8 }
    }

    /// The square on a file and a rank.
    pub open spec fn at_spec(file: File, rank: Rank) -> Square {
        Square::of(8 * rank.ix() + file.ix())
    }

    pub open spec fn file_spec(self) -> File {
        File::of(self@ % 8)
    }

    pub open spec fn rank_spec(self) -> Rank {
        Rank::of(self@ / 8)
    }

    pub open spec fn as_mask_spec(self) -> Mask {
        Mask(single(self@))
    }

    /// The square one step away, if the step stays on the board.
    pub open spec fn go_spec(self, dir: Dir) -> Option<Square> {
        let f = self@ % 8 + dir.dx();
        let r = self@ / 8 + dir.dy();
        if 0 <= f < 8 && 0 <= r < 8 {
            Some(Square::of(8 * r + f))
        } else {
            None
        }
    }

    /// The square at the end of a walk of steps, if every step stays on the
    /// board.
    pub open spec fn goes_spec(self, dirs: Seq<Dir>) -> Option<Square>
        decreases dirs.len(),
    {
        if dirs.len() == 0 {
            Some(self)
        } else {
            match self.goes_spec(dirs.drop_last()) {
                None => None,
                Some(sq) => sq.go_spec(dirs.last()),
            }
        }
    }

    /// The number of files plus the number of ranks between two squares.
    pub open spec fn dist_spec(self, other: Square) -> int {
        let df = self@ % 8 - other@ % 8;
        let dr = self@ / 8 - other@ / 8;
        (if df < 0 {
            -df
        } else {
            df
        }) + (if dr < 0 {
            -dr
        } else {
            dr
        })
    }

    /// The name of the square: the letter of its file and the digit of
    /// its rank.
    pub open spec fn text(self) -> Seq<char> {
        seq![self.file_spec().char_spec(), self.rank_spec().char_spec()]
    }

    /// Writes the name of the square at the end of a string.
    pub fn write(&self, out: &mut String)
        ensures
            final(out)@ == old(out)@ + self.text(),
    {
        out.push(self.file().as_char());
        out.push(self.rank().as_char());
        assert(out@ =~= old(out)@ + self.text());
    }

    /// The name of the square.
    pub fn to_string(&self) -> (r: String)
        ensures
            r@ == self.text(),
    {
        let mut res = String::new();
        self.write(&mut res);
        assert(res@ =~= self.text());
        res
    }

    /// The set that holds this square alone.
    pub fn as_mask(&self) -> (r: Mask)
        ensures
            r == self.as_mask_spec(),
            forall|i: int| r.has(i) <==> i == self@,
    {
        broadcast use group_bit_facts;

        proof {
            use_type_invariant(self);
        }
        Mask::new(1u64 << self.idx)
    }

    pub fn new(ix: i8) -> (r: Option<Square>)
        ensures
            r.is_some() <==> 0 <= ix < 64,
            r.is_some() ==> r.unwrap()@ == ix,
    {
        if 0 <= ix && ix < 64 {
            Some(Square { idx: ix as u8 })
        } else {
            None
        }
    }

    /// The square of a set that holds exactly one.
    pub fn from_mask(mask: Mask) -> (r: Option<Square>)
        ensures
            r.is_some() <==> mask.count() == 1,
            r.is_some() ==> r.unwrap()@ == lowest(mask.0) && mask.has(r.unwrap()@),
    {
        if mask.occupied() == 1 {
            proof {
                if mask.0 == 0 {
                    crate::masks::lemma_walk_start(mask);
                    crate::masks::lemma_walk_end(mask, mask, 0, 0int, crate::masks::count_step());
                }
            }
            mask.first()
        } else {
            None
        }
    }

    pub fn index(&self) -> (r: i8)
        ensures
            r == self@,
            0 <= r < 64,
    {
        proof {
            use_type_invariant(self);
        }
        self.idx as i8
    }

    pub fn algebraic(&self) -> (r: (File, Rank))
        ensures
            r.0 == self.file_spec(),
            r.1 == self.rank_spec(),
            8 * r.1.ix() + r.0.ix() == self@,
    {
        (self.file(), self.rank())
    }

    pub fn rank(&self) -> (r: Rank)
        ensures
            r == self.rank_spec(),
            r.ix() == self@ / 8,
    {
        match Rank::rank(self.index() / 8) {
            Some(r) => r,
            None => Rank::_1,
        }
    }

    pub fn file(&self) -> (r: File)
        ensures
            r == self.file_spec(),
            r.ix() == self@ % 8,
    {
        match File::file(self.index() % 8) {
            Some(f) => f,
            None => File::A,
        }
    }

    pub fn at(file: File, rank: Rank) -> (r: Square)
        ensures
            r == Square::at_spec(file, rank),
            r@ == 8 * rank.ix() + file.ix(),
    {
        Square { idx: (rank.as_rank() * 8 + file.as_file()) as u8 }
    }

    pub fn dist(&self, other: Square) -> (r: i8)
        ensures
            r == self.dist_spec(other),
    {
        let (f, r) = self.algebraic();
        let (of, or) = other.algebraic();
        let df = f.as_file() - of.as_file();
        let dr = r.as_rank() - or.as_rank();
        (if df < 0 {
            -df
        } else {
            df
        }) + (if dr < 0 {
            -dr
        } else {
            dr
        })
    }

    /// One step in a direction, where it stays on the board.
    pub fn go(&self, dir: Dir) -> (r: Option<Square>)
        ensures
            r == self.go_spec(dir),
            r.is_some() ==> r.unwrap()@ == self@ + 8 * dir.dy() + dir.dx(),
    {
        let val = self.index();
        let (f, r) = dir.as_offset();
        let file = val % 8 + f;
        let rank = val / 8 + r;
        if 0 <= file && file < 8 && 0 <= rank && rank < 8 {
            Some(Square { idx: (rank * 8 + file) as u8 })
        } else {
            None
        }
    }

    /// A walk of steps, where every step stays on the board.
    pub fn goes<const N: usize>(&self, dirs: [Dir; N]) -> (r: Option<Square>)
        ensures
            r == self.goes_spec(dirs@),
    {
        let mut n: usize = 0;
        let mut res = Some(*self);
        while n < N
            invariant
                n <= N,
                dirs@.len() == N,
                res == self.goes_spec(dirs@.take(n as int)),
            decreases N - n,
        {
            proof {
                assert(dirs@.take(n + 1).drop_last() == dirs@.take(n as int));
            }
            res =
            match res {
                None => None,
                Some(sq) => sq.go(dirs[n]),
            };
            n += 1;
        }
        proof {
            assert(dirs@.take(N as int) == dirs@);
        }
        res
    }

    /// Reads a file and a rank from the front of a string.
    pub fn read(s: &str) -> (r: Option<(Square, &str)>)
        ensures
            r.is_some() <==> (s@.len() >= 2 && File::from_char_spec(s@[0]).is_some()
                && Rank::from_char_spec(s@[1]).is_some()),
            r.is_some() ==> r.unwrap().0 == Square::at_spec(
                File::from_char_spec(s@[0]).unwrap(),
                Rank::from_char_spec(s@[1]).unwrap(),
            ) && r.unwrap().1@ == s@.skip(2),
    {
        let (f, s1) = match File::read(s) {
            None => { return None; },
            Some(x) => x,
        };
        let (r, s2) = match Rank::read(s1) {
            None => { return None; },
            Some(x) => x,
        };
        proof {
            assert(s@.skip(1).skip(1) == s@.skip(2));
        }
        Some((Square::at(f, r), s2))
    }

    /// The step from this square to another.
    pub fn to(self, other: Square) -> (r: ProtoMove)
        ensures
            r.from == self,
            r.to == other,
    {
        ProtoMove { from: self, to: other }
    }
}

/// The square of an index on the board has that index.
pub broadcast proof fn lemma_square_of(i: int)
    requires
        0 <= i < 64,
    ensures
        (#[trigger] Square::of(i))@ == i,
        Square::of(i).on_board(),
{
}

/// A square is the square of its index.
pub broadcast proof fn lemma_square_of_view(sq: Square)
    requires
        sq.on_board(),
    ensures
        #[trigger] Square::of(sq@) == sq,
{
}

/// Squares with the same index are the same square.
pub proof fn lemma_square_equal(a: Square, b: Square)
    requires
        a@ == b@,
    ensures
        a == b,
{
}

} // verus!
