//! Sets of squares as 64-bit words: bit `i` stands for the square of index
//! `i`, with a1 at 0 and h8 at 63.

use vstd::prelude::*;
use crate::bits::{
    bit, drop_lowest, group_bit_facts, highest, lemma_bit_nonzero, lemma_bits_equal,
    lemma_highest, lemma_lowest, lemma_lowest_none, lowest, single,
};
use crate::boardmap::BoardMap;
use crate::enums::Rank;
use crate::squares::Square;

verus! {

/// A set of squares.
#[derive(Clone, Copy, PartialEq, Eq, Structural, Debug)]
pub struct Mask(pub u64);

/// Counts one square more.
pub open spec fn count_step() -> spec_fn(int, int) -> int {
    |acc: int, s: int| acc + 1
}

/// The byte `b` read from its other end: bit `i` of the result is bit
/// `7 - i` of `b`.
pub open spec fn flip_byte(b: u8) -> u8 {
    (((b & 0x01) << 7) | ((b & 0x02) << 5) | ((b & 0x04) << 3) | ((b & 0x08) << 1) | ((b & 0x10)
        >> 1) | ((b & 0x20) >> 3) | ((b & 0x40) >> 5) | ((b & 0x80) >> 7)) as u8
}

/// The word whose byte `r` is `val` and whose other bytes are zero.
pub open spec fn rank_word(r: int, val: u8) -> u64 {
    (val as u64) << ((8 * r) as u64)
}

/// The word that a board written rank 8 first, file a leftmost, stands for.
pub open spec fn visual_word(x: Seq<u8>) -> u64 {
    rank_word(7, flip_byte(x[0])) | rank_word(6, flip_byte(x[1])) | rank_word(5, flip_byte(x[2]))
        | rank_word(4, flip_byte(x[3])) | rank_word(3, flip_byte(x[4])) | rank_word(
        2,
        flip_byte(x[5]),
    ) | rank_word(1, flip_byte(x[6])) | rank_word(0, flip_byte(x[7]))
}

/// The word with its eight bytes in the other order.
pub open spec fn swap_word(x: u64) -> u64 {
    (x << 56) | ((x & 0xff00) << 40) | ((x & 0xff_0000) << 24) | ((x & 0xff00_0000) << 8) | ((x
        >> 8) & 0xff00_0000) | ((x >> 24) & 0xff_0000) | ((x >> 40) & 0xff00) | (x >> 56)
}

/// The word with its 64 bits in the other order.
pub open spec fn reverse_word(x: u64) -> u64 {
    let a = ((x >> 1) & 0x5555_5555_5555_5555) | ((x & 0x5555_5555_5555_5555) << 1);
    let b = ((a >> 2) & 0x3333_3333_3333_3333) | ((a & 0x3333_3333_3333_3333) << 2);
    let c = ((b >> 4) & 0x0f0f_0f0f_0f0f_0f0f) | ((b & 0x0f0f_0f0f_0f0f_0f0f) << 4);
    swap_word(c)
}

proof fn lemma_swap_word_bits(x: u64, i: u64)
    by (bit_vector)
    requires
        i < 64,
    ensures
        (swap_word(x) >> i) & 1 == (x >> (i ^ 56)) & 1,
        i ^ 56 == i % 8 + 8 * (7 - i / 8),
{
}

proof fn lemma_reverse_word_bits(x: u64, i: u64)
    by (bit_vector)
    requires
        i < 64,
    ensures
        (reverse_word(x) >> i) & 1 == (x >> (63 - i) as u64) & 1,
{
}

proof fn lemma_flip_byte_bits(b: u8, i: u8)
    by (bit_vector)
    requires
        i < 8,
    ensures
        (flip_byte(b) >> i) & 1 == (b >> (7 - i) as u8) & 1,
{
}

proof fn lemma_rank_word_bits(r: u64, val: u8, i: u64)
    by (bit_vector)
    requires
        r < 8,
        i < 64,
    ensures
        (((val as u64) << (8 * r) as u64) >> i) & 1 == 1 <==> (i / 8 == r && ((val as u64) >> (i
            % 8)) & 1 == 1),
        ((((val as u64) << (8 * r) as u64) >> (8 * r) as u64) & 0xff) as u8 == val,
{
}

impl Mask {
    /// Whether the square of index `i` is in the set.
    #[verifier::inline]
    pub open spec fn has(self, i: int) -> bool {
        bit(self.0, i)
    }

    /// What a walk over the set in ascending order computes from `init` with
    /// `f`, having gone through the squares below `n`.
    pub open spec fn fold<A>(self, n: int, init: A, f: spec_fn(A, int) -> A) -> A
        decreases n,
    {
        if n <= 0 {
            init
        } else {
            let acc = self.fold(n - 1, init, f);
            if self.has(n - 1) {
                f(acc, n - 1)
            } else {
                acc
            }
        }
    }

    /// How many squares are in the set.
    pub open spec fn count(self) -> int {
        self.fold(64, 0int, count_step())
    }

    /// The set with the ranks in the other order: a1 goes to a8.
    pub open spec fn mirror_spec(self) -> Mask {
        Mask(swap_word(self.0))
    }

    /// The set turned by half a turn: a1 goes to h8.
    pub open spec fn rotate_spec(self) -> Mask {
        Mask(reverse_word(self.0))
    }

    pub fn nil() -> (r: Mask)
        ensures
            r.0 == 0,
            forall|i: int| !r.has(i),
    {
        broadcast use group_bit_facts;

        Mask(0)
    }

    pub fn full() -> (r: Mask)
        ensures
            r.0 == u64::MAX,
            forall|i: int| 0 <= i < 64 ==> r.has(i),
    {
        broadcast use group_bit_facts;

        Mask(u64::MAX)
    }

    pub fn new(x: u64) -> (r: Mask)
        ensures
            r.0 == x,
    {
        Mask(x)
    }

    pub fn as_u64(&self) -> (r: u64)
        ensures
            r == self.0,
    {
        self.0
    }

    pub fn mirror(&self) -> (r: Mask)
        ensures
            r == self.mirror_spec(),
            forall|i: int| 0 <= i < 64 ==> (r.has(i) <==> self.has(i % 8 + 8 * (7 - i / 8))),
    {
        let x = self.0;
        let r = Mask(
            (x << 56) | ((x & 0xff00) << 40) | ((x & 0xff_0000) << 24) | ((x & 0xff00_0000) << 8)
                | ((x >> 8) & 0xff00_0000) | ((x >> 24) & 0xff_0000) | ((x >> 40) & 0xff00) | (x
                >> 56),
        );
        proof {
            assert forall|i: int| 0 <= i < 64 implies (r.has(i) <==> self.has(
                i % 8 + 8 * (7 - i / 8),
            )) by {
                lemma_swap_word_bits(x, i as u64);
            }
        }
        r
    }

    pub fn rotate(&self) -> (r: Mask)
        ensures
            r == self.rotate_spec(),
            forall|i: int| 0 <= i < 64 ==> (r.has(i) <==> self.has(63 - i)),
    {
        let x = self.0;
        let a = ((x >> 1) & 0x5555_5555_5555_5555) | ((x & 0x5555_5555_5555_5555) << 1);
        let b = ((a >> 2) & 0x3333_3333_3333_3333) | ((a & 0x3333_3333_3333_3333) << 2);
        let c = ((b >> 4) & 0x0f0f_0f0f_0f0f_0f0f) | ((b & 0x0f0f_0f0f_0f0f_0f0f) << 4);
        let r = Mask(c).mirror();
        proof {
            assert forall|i: int| 0 <= i < 64 implies (r.has(i) <==> self.has(63 - i)) by {
                lemma_reverse_word_bits(x, i as u64);
            }
        }
        r
    }

    pub fn overlap(&self, other: Mask) -> (r: Mask)
        ensures
            r.0 == self.0 & other.0,
            forall|i: int| r.has(i) <==> self.has(i) && other.has(i),
    {
        broadcast use group_bit_facts;

        Mask(self.0 & other.0)
    }

    pub fn overlay(&self, other: Mask) -> (r: Mask)
        ensures
            r.0 == self.0 | other.0,
            forall|i: int| r.has(i) <==> self.has(i) || other.has(i),
    {
        broadcast use group_bit_facts;

        Mask(self.0 | other.0)
    }

    pub fn differences(&self, other: Mask) -> (r: Mask)
        ensures
            r.0 == self.0 ^ other.0,
            forall|i: int| r.has(i) <==> (self.has(i) != other.has(i)),
    {
        broadcast use group_bit_facts;

        Mask(self.0 ^ other.0)
    }

    pub fn inverse(&self) -> (r: Mask)
        ensures
            r.0 == !self.0,
            forall|i: int| 0 <= i < 64 ==> (r.has(i) <==> !self.has(i)),
    {
        broadcast use group_bit_facts;

        Mask(!self.0)
    }

    /// The byte of one rank: bit `f` of it is the square on file `f`.
    pub fn as_u8(&self, rank: Rank) -> (r: u8)
        ensures
            r == ((self.0 >> ((8 * rank.ix()) as u64)) & 0xff) as u8,
            forall|f: int| 0 <= f < 8 ==> (#[trigger] bit(r as u64, f) <==> self.has(8 * rank.ix() + f)),
    {
        let k: u64 = 8 * (rank.as_rank() as u64);
        let x = self.0;
        let r = ((x >> k) & 0xff) as u8;
        proof {
            assert forall|f: int| 0 <= f < 8 implies (#[trigger] bit(r as u64, f) <==> self.has(
                8 * rank.ix() + f,
            )) by {
                let fu = f as u64;
                assert(((((x >> k) & 0xff) as u8 as u64) >> fu) & 1 == (x >> ((k + fu) as u64))
                    & 1) by (bit_vector)
                    requires
                        fu < 8,
                        k <= 56,
                ;
            }
        }
        r
    }

    /// The set on one rank whose byte is `val`.
    pub fn new_rank(rank: Rank, val: u8) -> (r: Mask)
        ensures
            r.0 == rank_word(rank.ix(), val),
            forall|i: int|
                0 <= i < 64 ==> (#[trigger] r.has(i) <==> (i / 8 == rank.ix() && bit(
                    val as u64,
                    i % 8,
                ))),
    {
        let k: u64 = 8 * (rank.as_rank() as u64);
        let r = Mask((val as u64) << k);
        proof {
            assert forall|i: int| 0 <= i < 64 implies (#[trigger] r.has(i) <==> (i / 8
                == rank.ix() && bit(
                val as u64,
                i % 8,
            ))) by {
                lemma_rank_word_bits(rank.ix() as u64, val, i as u64);
            }
        }
        r
    }

    pub fn any(&self) -> (r: bool)
        ensures
            r <==> self.0 != 0,
            r <==> exists|i: int| self.has(i),
    {
        proof {
            if self.0 != 0 {
                lemma_lowest(self.0);
                assert(self.has(lowest(self.0)));
            } else {
                broadcast use group_bit_facts;

            }
        }
        self.0 != 0
    }

    pub fn occupied(&self) -> (r: u32)
        ensures
            r == self.count(),
            0 <= r <= 64,
    {
        let mut rest = self.0;
        let mut n: u32 = 0;
        let ghost f = count_step();
        let ghost mut k: int = 0;
        proof {
            lemma_walk_start(*self);
        }
        while rest != 0
            invariant
                walking(*self, Mask(rest), k),
                f == count_step(),
                n == self.fold(k, 0int, f),
                n <= k,
            decreases rest,
        {
            proof {
                lemma_walk_step(*self, Mask(rest), k, 0int, f);
                lemma_lowest(rest);
                k = lowest(rest) + 1;
            }
            rest = rest & !(1u64 << rest.trailing_zeros());
            n = n + 1;
        }
        proof {
            lemma_walk_end(*self, Mask(rest), k, 0int, f);
        }
        n
    }

    pub fn set(self, sq: Square) -> (r: Mask)
        ensures
            r.0 == self.0 | single(sq@),
            forall|i: int| r.has(i) <==> self.has(i) || i == sq@,
    {
        broadcast use group_bit_facts;

        proof {
            use_type_invariant(sq);
        }
        self.overlay(sq.as_mask())
    }

    pub fn unset(self, sq: Square) -> (r: Mask)
        ensures
            r.0 == self.0 & !single(sq@),
            forall|i: int| r.has(i) <==> self.has(i) && i != sq@,
    {
        broadcast use group_bit_facts;

        proof {
            use_type_invariant(sq);
        }
        self.overlap(sq.as_mask().inverse())
    }

    /// The lowest square of the set.
    pub fn first(self) -> (r: Option<Square>)
        ensures
            r.is_some() <==> self.0 != 0,
            r.is_some() ==> r.unwrap()@ == lowest(self.0) && self.has(r.unwrap()@),
            r.is_some() ==> forall|j: int| 0 <= j < r.unwrap()@ ==> !self.has(j),
    {
        proof {
            lemma_lowest_none(self.0);
            if self.0 != 0 {
                lemma_lowest(self.0);
            }
        }
        Square::new(self.0.trailing_zeros() as i8)
    }

    /// The highest square of the set.
    pub fn last(self) -> (r: Option<Square>)
        ensures
            r.is_some() <==> self.0 != 0,
            r.is_some() ==> r.unwrap()@ == highest(self.0) && self.has(r.unwrap()@),
            r.is_some() ==> forall|j: int| r.unwrap()@ < j < 64 ==> !self.has(j),
    {
        proof {
            lemma_highest(self.0);
        }
        let lz = self.0.leading_zeros();
        Square::new((63 - lz as i8) as i8)
    }

    /// The set without its lowest square.
    pub fn sans_first(self) -> (r: Mask)
        ensures
            self.0 == 0 ==> r == self,
            self.0 != 0 ==> r.0 == drop_lowest(self.0) && r.0 < self.0,
            forall|i: int| r.has(i) <==> self.has(i) && i != lowest(self.0),
    {
        proof {
            lemma_lowest_none(self.0);
            if self.0 != 0 {
                lemma_lowest(self.0);
            }
        }
        match self.first() {
            None => self,
            Some(sq) => self.unset(sq),
        }
    }

    pub fn contains(&self, sq: Square) -> (r: bool)
        ensures
            r <==> self.has(sq@),
    {
        proof {
            use_type_invariant(sq);
            let m = sq.as_mask_spec();
            assert forall|i: int| bit(self.0 & m.0, i) <==> (i == sq@ && self.has(i)) by {
                broadcast use group_bit_facts;

            }
            if self.has(sq@) {
                lemma_bit_nonzero(self.0 & m.0, sq@);
            } else {
                assert forall|i: int| 0 <= i < 64 implies bit(self.0 & m.0, i) == bit(0, i) by {
                    broadcast use group_bit_facts;

                }
                lemma_bits_equal(self.0 & m.0, 0);
            }
        }
        self.0 & sq.as_mask().0 != 0
    }

    /// The set that eight bytes draw: the first byte is rank 8, and in each
    /// byte the highest bit is file a.
    pub fn visboard(x: [u8; 8]) -> (r: Mask)
        ensures
            r.0 == visual_word(x@),
            forall|i: int|
                0 <= i < 64 ==> (#[trigger] r.has(i) <==> bit(x@[7 - i / 8] as u64, 7 - i % 8)),
    {
        let r = Mask::new_rank(Rank::_8, flip(x[0])).overlay(
            Mask::new_rank(Rank::_7, flip(x[1])),
        ).overlay(Mask::new_rank(Rank::_6, flip(x[2]))).overlay(
            Mask::new_rank(Rank::_5, flip(x[3])),
        ).overlay(Mask::new_rank(Rank::_4, flip(x[4]))).overlay(
            Mask::new_rank(Rank::_3, flip(x[5])),
        ).overlay(Mask::new_rank(Rank::_2, flip(x[6]))).overlay(
            Mask::new_rank(Rank::_1, flip(x[7])),
        );
        r
    }

    pub fn iter(&self) -> (r: SquareIter)
        ensures
            r.rest == *self,
    {
        SquareIter { rest: *self }
    }

    /// Marks the squares of the set in a table of flags.
    pub fn render(&self, highlight: &mut BoardMap<bool>)
        ensures
            forall|i: int|
                0 <= i < 64 ==> #[trigger] final(highlight)@[i] == (self.has(i) || old(
                    highlight,
                )@[i]),
    {
        let mut it = self.iter();
        let ghost mut k: int = 0;
        let ghost start = highlight@;
        proof {
            lemma_walk_start(*self);
        }
        loop
            invariant_except_break
                walking(*self, it.rest, k),
                forall|i: int|
                    0 <= i < 64 ==> #[trigger] highlight@[i] == ((self.has(i) && i < k)
                        || start[i]),
            ensures
                forall|i: int| 0 <= i < 64 ==> #[trigger] highlight@[i] == (self.has(i) || start[i]),
            decreases it.rest.0,
        {
            let ghost before = it.rest;
            let ghost shown = highlight@;
            match it.next() {
                None => {
                    proof {
                        lemma_walk_end(*self, before, k, 0int, |a: int, s: int| a);
                    }
                    break ;
                },
                Some(sq) => {
                    proof {
                        lemma_walk_step(*self, before, k, 0int, |a: int, s: int| a);
                    }
                    highlight.set(sq, true);
                    proof {
                        assert forall|i: int| 0 <= i < 64 implies #[trigger] highlight@[i] == ((
                        self.has(i) && i < sq@ + 1) || start[i]) by {
                            assert(shown[i] == ((self.has(i) && i < k) || start[i]));
                        }
                        k = sq@ + 1;
                    }
                },
            }
        }
    }
}

impl core::ops::BitOr for Mask {
    type Output = Mask;

    /// The union.
    fn bitor(self, rhs: Mask) -> (r: Mask) {
        self.overlay(rhs)
    }
}

impl vstd::std_specs::ops::BitOrSpecImpl for Mask {
    open spec fn obeys_bitor_spec() -> bool {
        true
    }

    open spec fn bitor_req(self, rhs: Mask) -> bool {
        true
    }

    open spec fn bitor_spec(self, rhs: Mask) -> Mask {
        Mask(self.0 | rhs.0)
    }
}

impl core::ops::BitAnd for Mask {
    type Output = Mask;

    /// The intersection.
    fn bitand(self, rhs: Mask) -> (r: Mask) {
        self.overlap(rhs)
    }
}

impl vstd::std_specs::ops::BitAndSpecImpl for Mask {
    open spec fn obeys_bitand_spec() -> bool {
        true
    }

    open spec fn bitand_req(self, rhs: Mask) -> bool {
        true
    }

    open spec fn bitand_spec(self, rhs: Mask) -> Mask {
        Mask(self.0 & rhs.0)
    }
}

impl core::ops::BitXor for Mask {
    type Output = Mask;

    /// The symmetric difference.
    fn bitxor(self, rhs: Mask) -> (r: Mask) {
        self.differences(rhs)
    }
}

impl vstd::std_specs::ops::BitXorSpecImpl for Mask {
    open spec fn obeys_bitxor_spec() -> bool {
        true
    }

    open spec fn bitxor_req(self, rhs: Mask) -> bool {
        true
    }

    open spec fn bitxor_spec(self, rhs: Mask) -> Mask {
        Mask(self.0 ^ rhs.0)
    }
}

impl core::ops::Not for Mask {
    type Output = Mask;

    /// The complement.
    fn not(self) -> (r: Mask) {
        self.inverse()
    }
}

impl vstd::std_specs::ops::NotSpecImpl for Mask {
    open spec fn obeys_not_spec() -> bool {
        true
    }

    open spec fn not_req(self) -> bool {
        true
    }

    open spec fn not_spec(self) -> Mask {
        Mask(!self.0)
    }
}

/// The byte `b` read from its other end.
pub fn flip(b: u8) -> (r: u8)
    ensures
        r == flip_byte(b),
        forall|i: int| 0 <= i < 8 ==> (#[trigger] bit(r as u64, i) <==> bit(b as u64, 7 - i)),
{
    let r = ((b & 0x01) << 7) | ((b & 0x02) << 5) | ((b & 0x04) << 3) | ((b & 0x08) << 1) | ((b
        & 0x10) >> 1) | ((b & 0x20) >> 3) | ((b & 0x40) >> 5) | ((b & 0x80) >> 7);
    proof {
        assert forall|i: int| 0 <= i < 8 implies (#[trigger] bit(r as u64, i) <==> bit(
            b as u64,
            7 - i,
        )) by {
            let iu = i as u8;
            let ju = (7 - i) as u8;
            lemma_flip_byte_bits(b, iu);
            assert((r as u64 >> (iu as u64)) & 1 == ((r >> iu) & 1) as u64) by (bit_vector);
            assert((b as u64 >> (ju as u64)) & 1 == ((b >> ju) & 1) as u64) by (bit_vector);
        }
    }
    r
}

/// A walk over `whole` that has handed out every square below `k` and has
/// `rest` left.
pub open spec fn walking(whole: Mask, rest: Mask, k: int) -> bool {
    &&& 0 <= k <= 64
    &&& forall|j: int| 0 <= j < 64 ==> (#[trigger] rest.has(j) <==> (j >= k && whole.has(j)))
}

pub proof fn lemma_walk_start(whole: Mask)
    ensures
        walking(whole, whole, 0),
{
}

/// Squares that are not in the set do not change what a walk computes.
pub proof fn lemma_fold_skip<A>(m: Mask, a: int, b: int, init: A, f: spec_fn(A, int) -> A)
    requires
        0 <= a <= b,
        forall|j: int| a <= j < b ==> !m.has(j),
    ensures
        m.fold(b, init, f) == m.fold(a, init, f),
    decreases b - a,
{
    if a < b {
        lemma_fold_skip(m, a, b - 1, init, f);
    }
}

/// One step of a walk: the lowest square left is the next square of the
/// whole set at or above `k`.
pub proof fn lemma_walk_step<A>(whole: Mask, rest: Mask, k: int, init: A, f: spec_fn(A, int) -> A)
    requires
        walking(whole, rest, k),
        rest.0 != 0,
    ensures
        k <= lowest(rest.0) < 64,
        whole.has(lowest(rest.0)),
        walking(whole, Mask(drop_lowest(rest.0)), lowest(rest.0) + 1),
        whole.fold(lowest(rest.0) + 1, init, f) == f(whole.fold(k, init, f), lowest(rest.0)),
        whole.fold(lowest(rest.0), init, f) == whole.fold(k, init, f),
        forall|j: int| k <= j < lowest(rest.0) ==> !whole.has(j),
{
    lemma_lowest(rest.0);
    let z = lowest(rest.0);
    assert(rest.has(z));
    assert forall|j: int| k <= j < z implies !whole.has(j) by {
        assert(!rest.has(j));
    }
    lemma_fold_skip(whole, k, z, init, f);
    let next = Mask(drop_lowest(rest.0));
    assert forall|j: int| 0 <= j < 64 implies (#[trigger] next.has(j) <==> (j >= z + 1
        && whole.has(j))) by {
        assert(rest.has(j) <==> (j >= k && whole.has(j)));
    }
}

/// The end of a walk: with nothing left, the walk has computed what it
/// computes of the whole set.
pub proof fn lemma_walk_end<A>(whole: Mask, rest: Mask, k: int, init: A, f: spec_fn(A, int) -> A)
    requires
        walking(whole, rest, k),
        rest.0 == 0,
    ensures
        whole.fold(64, init, f) == whole.fold(k, init, f),
        forall|j: int| k <= j < 64 ==> !whole.has(j),
{
    assert forall|j: int| k <= j < 64 implies !whole.has(j) by {
        broadcast use group_bit_facts;

        assert(!rest.has(j));
    }
    lemma_fold_skip(whole, k, 64, init, f);
}

/// What holds of every value that a walk passes through holds of its
/// result.
pub proof fn lemma_fold_keeps<A>(
    m: Mask,
    n: int,
    init: A,
    f: spec_fn(A, int) -> A,
    p: spec_fn(A) -> bool,
)
    requires
        p(init),
        forall|acc: A, s: int| 0 <= s < 64 && m.has(s) && p(acc) ==> #[trigger] p(f(acc, s)),
    ensures
        p(m.fold(n, init, f)),
    decreases n,
{
    if n > 0 {
        lemma_fold_keeps(m, n - 1, init, f, p);
    }
}

/// A walk over `n` squares counts at most `n`.
pub proof fn lemma_count_upto(m: Mask, n: int)
    requires
        0 <= n,
    ensures
        0 <= m.fold(n, 0int, count_step()) <= n,
    decreases n,
{
    if n > 0 {
        lemma_count_upto(m, n - 1);
    }
}

/// A set holds at most 64 squares.
pub proof fn lemma_count_bounds(m: Mask)
    ensures
        0 <= m.count() <= 64,
{
    lemma_count_upto(m, 64);
}

/// Two sets with the same squares are the same set.
pub proof fn lemma_mask_equal(a: Mask, b: Mask)
    requires
        forall|i: int| 0 <= i < 64 ==> a.has(i) == b.has(i),
    ensures
        a == b,
{
    lemma_bits_equal(a.0, b.0);
}

/// The squares of a set, handed out lowest first.
pub struct SquareIter {
    pub rest: Mask,
}

impl SquareIter {
    /// Hands out the lowest square left and drops it.
    pub fn next(&mut self) -> (r: Option<Square>)
        ensures
            r.is_some() <==> old(self).rest.0 != 0,
            r.is_none() ==> final(self).rest == old(self).rest,
            r.is_some() ==> r.unwrap()@ == lowest(old(self).rest.0) && final(self).rest.0
                == drop_lowest(old(self).rest.0) && final(self).rest.0 < old(self).rest.0,
    {
        match self.rest.first() {
            None => None,
            Some(sq) => {
                self.rest = self.rest.sans_first();
                Some(sq)
            },
        }
    }
}

/// What a walk that gathers sets has gathered: the squares of the sets
/// of the squares that it went through.
pub proof fn lemma_fold_or_has(
    m: Mask,
    n: int,
    f: spec_fn(u64, int) -> u64,
    g: spec_fn(int) -> u64,
    t: int,
)
    requires
        0 <= n <= 64,
        forall|acc: u64, s: int| #[trigger] f(acc, s) == acc | g(s),
    ensures
        bit(m.fold(n, 0u64, f), t) <==> exists|s: int| 0 <= s < n && m.has(s) && bit(g(s), t),
    decreases n,
{
    broadcast use group_bit_facts;

    if n > 0 {
        lemma_fold_or_has(m, n - 1, f, g, t);
        let acc = m.fold(n - 1, 0u64, f);
        if m.has(n - 1) {
            assert(m.fold(n, 0u64, f) == acc | g(n - 1));
            if bit(g(n - 1), t) {
                assert(0 <= n - 1 < n && m.has(n - 1) && bit(g(n - 1), t));
            }
        }
        if exists|s: int| 0 <= s < n && m.has(s) && bit(g(s), t) {
            let s = choose|s: int| 0 <= s < n && m.has(s) && bit(g(s), t);
            if s < n - 1 {
                assert(0 <= s < n - 1 && m.has(s) && bit(g(s), t));
            }
        }
    }
}

/// Toggling one square makes the count one more or one less.
pub proof fn lemma_count_toggle(m: Mask, x: int, n: int)
    requires
        0 <= x < 64,
        0 <= n <= 64,
    ensures
        Mask(m.0 ^ single(x)).fold(n, 0int, count_step()) == m.fold(n, 0int, count_step()) + (if x
            < n {
            if m.has(x) {
                -1int
            } else {
                1int
            }
        } else {
            0int
        }),
    decreases n,
{
    broadcast use group_bit_facts;

    if n > 0 {
        lemma_count_toggle(m, x, n - 1);
    }
}

/// A step of a piece from a square of the set to a square outside it
/// leaves the count as it is.
pub proof fn lemma_count_step(m: Mask, from: int, to: int)
    requires
        0 <= from < 64,
        0 <= to < 64,
        m.has(from),
        !m.has(to),
    ensures
        Mask(m.0 ^ (single(from) | single(to))).count() == m.count(),
{
    broadcast use group_bit_facts;

    let mid = Mask(m.0 ^ single(from));
    let end = Mask(mid.0 ^ single(to));
    let both = Mask(m.0 ^ (single(from) | single(to)));
    assert forall|i: int| 0 <= i < 64 implies end.has(i) == both.has(i) by {}
    lemma_mask_equal(end, both);
    lemma_count_toggle(m, from, 64);
    lemma_count_toggle(mid, to, 64);
}

/// A set that holds one square and no other counts one.
pub proof fn lemma_count_single(m: Mask, x: int)
    requires
        0 <= x < 64,
        forall|i: int| 0 <= i < 64 ==> (m.has(i) <==> i == x),
    ensures
        m.count() == 1,
{
    broadcast use group_bit_facts;

    let none = Mask(0);
    let one = Mask(none.0 ^ single(x));
    assert forall|i: int| 0 <= i < 64 implies one.has(i) == m.has(i) by {}
    lemma_mask_equal(one, m);
    lemma_count_toggle(none, x, 64);
    lemma_fold_skip(none, 0, 64, 0int, count_step());
}

/// A set that counts one holds one square and no other.
pub proof fn lemma_count_one(m: Mask, x: int, y: int)
    requires
        m.count() == 1,
        m.has(x),
        m.has(y),
    ensures
        x == y,
{
    broadcast use group_bit_facts;

    if x != y {
        let a = Mask(m.0 ^ single(x));
        let b = Mask(a.0 ^ single(y));
        lemma_count_toggle(m, x, 64);
        lemma_count_toggle(a, y, 64);
        lemma_count_bounds(b);
    }
}

/// The squares of the set on one rank that a byte draws.
pub proof fn lemma_rank_word_has(r: int, val: u8, i: int)
    requires
        0 <= r < 8,
        0 <= i < 64,
    ensures
        bit(rank_word(r, val), i) <==> (i / 8 == r && bit(val as u64, i % 8)),
{
    lemma_rank_word_bits(r as u64, val, i as u64);
}

/// The squares of a set turned by half a turn.
pub proof fn lemma_rotate_has(m: Mask, i: int)
    requires
        0 <= i < 64,
    ensures
        m.rotate_spec().has(i) <==> m.has(63 - i),
{
    lemma_reverse_word_bits(m.0, i as u64);
}

/// The squares of a set with the ranks in the other order.
pub proof fn lemma_mirror_has(m: Mask, i: int)
    requires
        0 <= i < 64,
    ensures
        m.mirror_spec().has(i) <==> m.has(i % 8 + 8 * (7 - i / 8)),
{
    lemma_swap_word_bits(m.0, i as u64);
}

} // verus!
