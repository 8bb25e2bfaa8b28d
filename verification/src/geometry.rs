//! Where steps and rays lead on the board.

use vstd::prelude::*;
use crate::bits::{bit, group_bit_facts};
use crate::enums::Dir;
use crate::pieces::pawns::{pawn_attacks, pawn_pushes};
use crate::pieces::ray;
use crate::squares::{lemma_square_of, Square};

verus! {

/// A walk of two steps is one step after the other.
pub proof fn lemma_goes_two(s: Square, d1: Dir, d2: Dir)
    ensures
        s.goes_spec(seq![d1, d2]) == (match s.go_spec(d1) {
            None => None,
            Some(t) => t.go_spec(d2),
        }),
{
    let two = seq![d1, d2];
    let one = two.drop_last();
    assert(one =~= seq![d1]);
    assert(one.drop_last() =~= Seq::<Dir>::empty());
    assert(two.last() == d2);
    assert(one.last() == d1);
    assert(s.goes_spec(one.drop_last()) == Some(s));
    assert(s.goes_spec(one) == s.go_spec(d1));
}

/// The squares that a pawn may push to on an empty board are the next
/// one on its way and, from its second rank, the one after that.
pub proof fn lemma_pawn_pushes(s: Square, dir: Dir, t: int)
    requires
        s.on_board(),
        dir == Dir::North || dir == Dir::South,
        pawn_pushes(s, dir).has(t),
    ensures
        t == s@ + 8 * dir.dy() || (t == s@ + 16 * dir.dy() && pawn_pushes(s, dir).has(
            s@ + 8 * dir.dy(),
        ) && (s@ / 8 == 1 || s@ / 8 == 6)),
        0 <= t < 64,
{
    broadcast use group_bit_facts;

    lemma_goes_two(s, dir, dir);
    match s.go_spec(dir) {
        Some(m) => {
            lemma_square_of(s@ + 8 * dir.dy());
            match m.go_spec(dir) {
                Some(e) => {
                    lemma_square_of(s@ + 16 * dir.dy());
                },
                None => {},
            }
        },
        None => {},
    }
}

/// The squares that a pawn attacks are on the next rank on its way.
pub proof fn lemma_pawn_attacks(s: Square, dir: Dir, t: int)
    requires
        s.on_board(),
        dir == Dir::North || dir == Dir::South,
        pawn_attacks(s, dir).has(t),
    ensures
        t / 8 == s@ / 8 + dir.dy(),
        0 <= t < 64,
{
    broadcast use group_bit_facts;

    lemma_goes_two(s, dir, Dir::East);
    lemma_goes_two(s, dir, Dir::West);
    match s.go_spec(dir) {
        Some(m) => {
            lemma_square_of(s@ + 8 * dir.dy());
            match m.go_spec(Dir::East) {
                Some(e) => {
                    lemma_square_of(m@ + 1);
                },
                None => {},
            }
            match m.go_spec(Dir::West) {
                Some(e) => {
                    lemma_square_of(m@ - 1);
                },
                None => {},
            }
        },
        None => {},
    }
}

/// `n` steps of one file or rank, or none.
pub open spec fn scaled(d: int, n: int) -> int {
    if d == 1 {
        n
    } else if d == -1 {
        -n
    } else {
        0
    }
}

/// Where one step ends.
pub proof fn lemma_go_at(p: Square, dir: Dir)
    requires
        p.on_board(),
    ensures
        p.go_spec(dir) matches Some(q) ==> q.on_board() && q@ % 8 == p@ % 8 + dir.dx() && q@ / 8
            == p@ / 8 + dir.dy(),
{
    let f = p@ % 8 + dir.dx();
    let r = p@ / 8 + dir.dy();
    if 0 <= f < 8 && 0 <= r < 8 {
        lemma_square_of(8 * r + f);
        assert((8 * r + f) % 8 == f && (8 * r + f) / 8 == r);
    }
}

/// Where a walk of `n` steps ends.
pub proof fn lemma_walk_at(s: Square, dir: Dir, n: nat)
    requires
        s.on_board(),
    ensures
        crate::pieces::walk(s, dir, n) matches Some(q) ==> q.on_board() && q@ % 8 == s@ % 8
            + scaled(dir.dx(), n as int) && q@ / 8 == s@ / 8 + scaled(dir.dy(), n as int),
    decreases n,
{
    if n > 0 {
        lemma_walk_at(s, dir, (n - 1) as nat);
        match crate::pieces::walk(s, dir, (n - 1) as nat) {
            Some(p) => {
                lemma_go_at(p, dir);
            },
            None => {},
        }
    }
}

/// A square of a ray is where a walk of some steps ends.
pub proof fn lemma_ray_member(s: Square, dir: Dir, x: int, n: nat)
    requires
        bit(crate::pieces::ray_upto(s, dir, n), x),
    ensures
        exists|k: nat|
            1 <= k <= n && (#[trigger] crate::pieces::walk(s, dir, k)).is_some()
                && crate::pieces::walk(s, dir, k).unwrap()@ == x,
    decreases n,
{
    broadcast use group_bit_facts;

    if n > 0 {
        if bit(crate::pieces::ray_upto(s, dir, (n - 1) as nat), x) {
            lemma_ray_member(s, dir, x, (n - 1) as nat);
            let k = choose|k: nat|
                1 <= k <= n - 1 && (#[trigger] crate::pieces::walk(s, dir, k)).is_some()
                    && crate::pieces::walk(s, dir, k).unwrap()@ == x;
            assert(1 <= k <= n && crate::pieces::walk(s, dir, k).is_some());
        } else {
            match crate::pieces::walk(s, dir, n) {
                Some(q) => {
                    if 0 <= q@ < 64 {
                        crate::bits::lemma_bit_single(q@, x);
                    }
                    assert(bit(crate::pieces::opt_word(Some(q)), x));
                    lemma_walk_at_any(s, dir, n);
                    crate::bits::lemma_bit_single(q@, x);
                    assert(crate::pieces::walk(s, dir, n).is_some());
                },
                None => {},
            }
        }
    }
}

/// A walk that starts on the board ends on the board.
pub proof fn lemma_walk_at_any(s: Square, dir: Dir, n: nat)
    ensures
        n >= 1 ==> (crate::pieces::walk(s, dir, n) matches Some(q) ==> q.on_board()),
    decreases n,
{
    if n >= 1 {
        match crate::pieces::walk(s, dir, (n - 1) as nat) {
            Some(p) => {
                match p.go_spec(dir) {
                    Some(q) => {
                        lemma_square_of(8 * (p@ / 8 + dir.dy()) + (p@ % 8 + dir.dx()));
                    },
                    None => {},
                }
            },
            None => {},
        }
    }
}

/// Two squares of a ray on one rank: the ray runs along the rank, east
/// from a file before the two or west from a file behind them.
pub proof fn lemma_ray_along_rank(s: Square, dir: Dir, x: int, y: int)
    requires
        s.on_board(),
        ray(s, dir).has(x),
        ray(s, dir).has(y),
        x != y,
        x / 8 == y / 8,
    ensures
        (dir == Dir::East && s@ % 8 < x % 8) || (dir == Dir::West && s@ % 8 > x % 8),
{
    lemma_ray_member(s, dir, x, 7);
    lemma_ray_member(s, dir, y, 7);
    let k = choose|k: nat|
        1 <= k <= 7 && (#[trigger] crate::pieces::walk(s, dir, k)).is_some()
            && crate::pieces::walk(s, dir, k).unwrap()@ == x;
    let j = choose|j: nat|
        1 <= j <= 7 && (#[trigger] crate::pieces::walk(s, dir, j)).is_some()
            && crate::pieces::walk(s, dir, j).unwrap()@ == y;
    lemma_walk_at(s, dir, k);
    lemma_walk_at(s, dir, j);
}

} // verus!
