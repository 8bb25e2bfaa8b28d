//! A table with one entry for each square.

use vstd::prelude::*;
use crate::enums::{ColorPiece, Micropawns};
use crate::masks::{lemma_walk_end, lemma_walk_step, walking, Mask, SquareIter};
use crate::squares::Square;

verus! {

/// A table indexed by square.
#[derive(Debug)]
pub struct BoardMap<T>(pub [T; 64]);

impl<T> View for BoardMap<T> {
    type V = Seq<T>;

    /// The entries by index of the square.
    open spec fn view(&self) -> Seq<T> {
        self.0@
    }
}

/// The union of the entries of `table` at the squares below `n` of `mask`.
pub open spec fn union_step(table: Seq<Mask>) -> spec_fn(u64, int) -> u64 {
    |acc: u64, s: int| acc | table[s].0
}

/// The intersection of the entries of `table` at the squares of `mask`.
pub open spec fn inter_step(table: Seq<Mask>) -> spec_fn(u64, int) -> u64 {
    |acc: u64, s: int| acc & table[s].0
}

/// The sum of the entries of `table` at the squares of `mask`.
pub open spec fn sum_step(table: Seq<Micropawns>) -> spec_fn(int, int) -> int {
    |acc: int, s: int| acc + table[s]
}

impl<T: Copy> BoardMap<T> {
    pub fn new(it: [T; 64]) -> (r: Self)
        ensures
            r@ == it@,
    {
        BoardMap(it)
    }

    /// The table that holds `it` for every square.
    pub fn new_with(it: T) -> (r: Self)
        ensures
            r@.len() == 64,
            forall|i: int| 0 <= i < 64 ==> r@[i] == it,
    {
        BoardMap([it;64])
    }

    pub fn at(&self, sq: Square) -> (r: T)
        ensures
            r == self@[sq@],
    {
        proof {
            use_type_invariant(sq);
        }
        self.0[sq.index() as usize]
    }

    pub fn set(&mut self, sq: Square, it: T)
        ensures
            final(self)@ == old(self)@.update(sq@, it),
    {
        proof {
            use_type_invariant(sq);
        }
        self.0[sq.index() as usize] = it;
    }

    /// A walk over the squares of the table, a1 first.
    pub fn iter(&self) -> (r: BoardMapIter<'_, T>)
        ensures
            r.squares.rest.0 == u64::MAX,
            r.map == self,
    {
        BoardMapIter { squares: Mask::full().iter(), map: self }
    }
}

impl<T: Clone> BoardMap<T> {
    /// The table that holds a clone of `it` for every square.
    pub fn new_with_clone(it: T) -> (r: Self)
        ensures
            r@.len() == 64,
            forall|i: int| 0 <= i < 64 ==> vstd::pervasive::cloned(it, #[trigger] r@[i]),
    {
        let all = [
            it.clone(), it.clone(), it.clone(), it.clone(), it.clone(), it.clone(), it.clone(),
            it.clone(), it.clone(), it.clone(), it.clone(), it.clone(), it.clone(), it.clone(),
            it.clone(), it.clone(), it.clone(), it.clone(), it.clone(), it.clone(), it.clone(),
            it.clone(), it.clone(), it.clone(), it.clone(), it.clone(), it.clone(), it.clone(),
            it.clone(), it.clone(), it.clone(), it.clone(), it.clone(), it.clone(), it.clone(),
            it.clone(), it.clone(), it.clone(), it.clone(), it.clone(), it.clone(), it.clone(),
            it.clone(), it.clone(), it.clone(), it.clone(), it.clone(), it.clone(), it.clone(),
            it.clone(), it.clone(), it.clone(), it.clone(), it.clone(), it.clone(), it.clone(),
            it.clone(), it.clone(), it.clone(), it.clone(), it.clone(), it.clone(), it.clone(),
            it.clone(),
        ];
        BoardMap(all)
    }

    pub fn at_clone(&self, sq: Square) -> (r: T)
        ensures
            vstd::pervasive::cloned(self@[sq@], r),
    {
        proof {
            use_type_invariant(sq);
        }
        self.0[sq.index() as usize].clone()
    }

    pub fn set_clone(&mut self, sq: Square, it: T)
        ensures
            final(self)@ == old(self)@.update(sq@, it),
    {
        proof {
            use_type_invariant(sq);
        }
        self.0[sq.index() as usize] = it;
    }
}

impl BoardMap<Mask> {
    pub open spec fn overlays_spec(self, mask: Mask) -> Mask {
        Mask(mask.fold(64, 0u64, union_step(self@)))
    }

    pub open spec fn overlaps_spec(self, mask: Mask) -> Mask {
        Mask(mask.fold(64, u64::MAX, inter_step(self@)))
    }

    /// The union of the entries at the squares of `mask`.
    pub fn overlays(&self, mask: Mask) -> (r: Mask)
        ensures
            r == self.overlays_spec(mask),
    {
        let mut res = Mask::nil();
        let mut iter = mask.iter();
        let ghost mut k: int = 0;
        let ghost f = union_step(self@);
        loop
            invariant_except_break
                walking(mask, iter.rest, k),
                f == union_step(self@),
                res.0 == mask.fold(k, 0u64, f),
            ensures
                res.0 == mask.fold(64, 0u64, f),
            decreases iter.rest.0,
        {
            let ghost before = iter.rest;
            match iter.next() {
                None => {
                    proof {
                        lemma_walk_end(mask, before, k, 0u64, f);
                    }
                    break ;
                },
                Some(sq) => {
                    proof {
                        lemma_walk_step(mask, before, k, 0u64, f);
                        k = sq@ + 1;
                    }
                    res = res.overlay(self.at(sq));
                },
            }
        }
        res
    }

    /// The intersection of the entries at the squares of `mask`; every
    /// square for the empty set.
    pub fn overlaps(&self, mask: Mask) -> (r: Mask)
        ensures
            r == self.overlaps_spec(mask),
    {
        let mut res = Mask::full();
        let mut iter = mask.iter();
        let ghost mut k: int = 0;
        let ghost f = inter_step(self@);
        loop
            invariant_except_break
                walking(mask, iter.rest, k),
                f == inter_step(self@),
                res.0 == mask.fold(k, u64::MAX, f),
            ensures
                res.0 == mask.fold(64, u64::MAX, f),
            decreases iter.rest.0,
        {
            let ghost before = iter.rest;
            match iter.next() {
                None => {
                    proof {
                        lemma_walk_end(mask, before, k, u64::MAX, f);
                    }
                    break ;
                },
                Some(sq) => {
                    proof {
                        lemma_walk_step(mask, before, k, u64::MAX, f);
                        k = sq@ + 1;
                    }
                    res = res.overlap(self.at(sq));
                },
            }
        }
        res
    }
}

impl BoardMap<bool> {
    /// The set of the squares whose entry is true.
    pub fn to_mask(&self) -> (r: Mask)
        ensures
            forall|i: int| 0 <= i < 64 ==> (r.has(i) <==> self@[i]),
    {
        let mut res = Mask::nil();
        let mut n: i8 = 0;
        while n < 64
            invariant
                0 <= n <= 64,
                forall|i: int| 0 <= i < 64 ==> (res.has(i) <==> (i < n && self@[i])),
            decreases 64 - n,
        {
            match Square::new(n) {
                None => {},
                Some(sq) => {
                    if self.at(sq) {
                        res = res.set(sq);
                    }
                },
            }
            n += 1;
        }
        res
    }
}

impl BoardMap<Option<ColorPiece>> {
    /// The set of the squares that hold the piece `c`.
    pub fn to_mask(&self, c: ColorPiece) -> (r: Mask)
        ensures
            forall|i: int| 0 <= i < 64 ==> (r.has(i) <==> self@[i] == Some(c)),
    {
        let mut res = Mask::nil();
        let mut n: i8 = 0;
        while n < 64
            invariant
                0 <= n <= 64,
                forall|i: int| 0 <= i < 64 ==> (res.has(i) <==> (i < n && self@[i] == Some(c))),
            decreases 64 - n,
        {
            match Square::new(n) {
                None => {},
                Some(sq) => {
                    match self.at(sq) {
                        None => {},
                        Some(x) => {
                            if x == c {
                                res = res.set(sq);
                            }
                        },
                    }
                },
            }
            n += 1;
        }
        res
    }
}

impl BoardMap<Micropawns> {
    pub open spec fn sum_mask_spec(self, m: Mask) -> int {
        m.fold(64, 0int, sum_step(self@))
    }

    /// The table that eight rows of eight values draw: the first row is
    /// rank 8, and in each row the first value is file a.
    pub open spec fn board_spec(b: Seq<[Micropawns; 8]>) -> Seq<Micropawns> {
        Seq::new(64, |i: int| b[7 - i / 8]@[i % 8])
    }

    /// The sum of the entries at the squares of `m`.
    pub fn sum_mask(&self, m: Mask) -> (r: Micropawns)
        requires
            forall|i: int| 0 <= i < 64 ==> -0x0080_0000_0000_0000 <= #[trigger] self@[i]
                <= 0x0080_0000_0000_0000,
        ensures
            r == self.sum_mask_spec(m),
    {
        let mut res: i64 = 0;
        let mut it = m.iter();
        let ghost mut k: int = 0;
        let ghost f = sum_step(self@);
        loop
            invariant_except_break
                walking(m, it.rest, k),
                f == sum_step(self@),
                res == m.fold(k, 0int, f),
                -0x0080_0000_0000_0000 * k <= res <= 0x0080_0000_0000_0000 * k,
                forall|i: int| 0 <= i < 64 ==> -0x0080_0000_0000_0000 <= #[trigger] self@[i]
                    <= 0x0080_0000_0000_0000,
            ensures
                res == m.fold(64, 0int, f),
            decreases it.rest.0,
        {
            let ghost before = it.rest;
            match it.next() {
                None => {
                    proof {
                        lemma_walk_end(m, before, k, 0int, f);
                    }
                    break ;
                },
                Some(sq) => {
                    proof {
                        lemma_walk_step(m, before, k, 0int, f);
                        k = sq@ + 1;
                    }
                    res = res + self.at(sq);
                },
            }
        }
        res
    }

    pub fn board(b: &[[Micropawns; 8]; 8]) -> (r: Self)
        ensures
            r@ == Self::board_spec(b@),
    {
        let mut res = [0i64;64];
        let mut n: usize = 0;
        while n < 64
            invariant
                n <= 64,
                forall|i: int| 0 <= i < n ==> res@[i] == b@[7 - i / 8]@[i % 8],
            decreases 64 - n,
        {
            res[n] = b[7 - n / 8][n % 8];
            n += 1;
        }
        proof {
            assert(res@ =~= Self::board_spec(b@));
        }
        BoardMap(res)
    }

    /// The table that the rows draw, and the table that they draw when
    /// read from the last row up.
    pub fn board_and_mirror(b: &[[Micropawns; 8]; 8]) -> (r: (Self, Self))
        ensures
            r.0@ == Self::board_spec(b@),
            forall|i: int| 0 <= i < 64 ==> r.1@[i] == r.0@[i % 8 + 8 * (7 - i / 8)],
    {
        let white = Self::board(b);
        let flipped = [b[7], b[6], b[5], b[4], b[3], b[2], b[1], b[0]];
        let black = Self::board(&flipped);
        (white, black)
    }
}

impl<T: Default> BoardMap<T> {
    /// Puts the default value in every entry.
    pub fn reset(&mut self)
        ensures
            forall|i: int| 0 <= i < 64 ==> T::default.ensures((), #[trigger] final(self)@[i]),
    {
        let mut n: usize = 0;
        while n < 64
            invariant
                n <= 64,
                forall|i: int| 0 <= i < n ==> T::default.ensures((), #[trigger] self@[i]),
            decreases 64 - n,
        {
            let ghost before = self@;
            let d = T::default();
            assert(T::default.ensures((), d));
            self.0[n] = d;
            assert(self@[n as int] == d);
            assert(forall|i: int| 0 <= i < n ==> self@[i] == before[i]);
            n += 1;
        }
    }
}

impl<T: Default> Default for BoardMap<T> {
    /// The table that holds the default value for every square.
    fn default() -> (r: Self)
        ensures
            r@.len() == 64,
            forall|i: int| 0 <= i < 64 ==> T::default.ensures((), #[trigger] r@[i]),
    {
        let all = [
            T::default(), T::default(), T::default(), T::default(), T::default(), T::default(),
            T::default(), T::default(), T::default(), T::default(), T::default(), T::default(),
            T::default(), T::default(), T::default(), T::default(), T::default(), T::default(),
            T::default(), T::default(), T::default(), T::default(), T::default(), T::default(),
            T::default(), T::default(), T::default(), T::default(), T::default(), T::default(),
            T::default(), T::default(), T::default(), T::default(), T::default(), T::default(),
            T::default(), T::default(), T::default(), T::default(), T::default(), T::default(),
            T::default(), T::default(), T::default(), T::default(), T::default(), T::default(),
            T::default(), T::default(), T::default(), T::default(), T::default(), T::default(),
            T::default(), T::default(), T::default(), T::default(), T::default(), T::default(),
            T::default(), T::default(), T::default(), T::default(),
        ];
        BoardMap(all)
    }
}

/// The squares of a table with their entries, a1 first.
pub struct BoardMapIter<'a, T> {
    pub squares: SquareIter,
    pub map: &'a BoardMap<T>,
}

impl<'a, T: Copy> BoardMapIter<'a, T> {
    /// Hands out the lowest square left with its entry.
    pub fn next(&mut self) -> (r: Option<(Square, T)>)
        ensures
            final(self).map == old(self).map,
            r.is_some() <==> old(self).squares.rest.0 != 0,
            r.is_none() ==> final(self).squares == old(self).squares,
            r.is_some() ==> r.unwrap().0@ == crate::bits::lowest(old(self).squares.rest.0)
                && r.unwrap().1 == old(self).map@[r.unwrap().0@] && final(self).squares.rest.0
                == crate::bits::drop_lowest(old(self).squares.rest.0),
    {
        match self.squares.next() {
            None => None,
            Some(sq) => Some((sq, self.map.at(sq))),
        }
    }
}

} // verus!
