//! The draws that the rules force: the clock of moves without capture or
//! pawn move, the positions seen before, and what is left of the pieces.

use vstd::prelude::*;
use vstd::multiset::Multiset;
use std::collections::HashMap;
use crate::board::BitBoard;
use crate::enums::{ColorPiece, GameEnd};
use crate::moves::Move;
use crate::zobrist::{HashResult, HASH_BITS};

verus! {

broadcast use {vstd::std_specs::hash::group_hash_axioms, vstd::multiset::group_multiset_axioms};

/// The number of half-moves without capture or pawn move that ends the
/// game in a draw.
pub const CLOCK_LIMIT: u16 = 150;

/// The tempo of the last capture or pawn move, as known for good or as
/// it would be on a line that is being looked at.
#[derive(Clone, Copy)]
pub enum LastChange<'a> {
    Static(u16),
    Speculative(u16, &'a LastChange<'a>),
}

impl<'a> LastChange<'a> {
    pub open spec fn tempo_spec(&self) -> u16 {
        match self {
            LastChange::Static(n) => *n,
            LastChange::Speculative(n, _) => *n,
        }
    }

    /// Whether a move is a capture or a pawn move.
    pub open spec fn resets(mv: Move) -> bool {
        mv.capture.is_some() || mv.color_and_piece == ColorPiece::BlackPawn || mv.color_and_piece
            == ColorPiece::WhitePawn
    }

    /// The start of a game.
    pub fn start() -> (r: LastChange<'static>)
        ensures
            r == LastChange::Static(0),
    {
        LastChange::Static(0)
    }

    /// What the last change is once the move `mv` has been made at
    /// `tempo`.
    pub fn see(&'a self, tempo: u16, mv: Move) -> (r: LastChange<'a>)
        ensures
            r == (if Self::resets(mv) {
                LastChange::Speculative(tempo, self)
            } else {
                *self
            }),
    {
        if mv.capture.is_some() || mv.color_and_piece == ColorPiece::BlackPawn
            || mv.color_and_piece == ColorPiece::WhitePawn {
            LastChange::Speculative(tempo, self)
        } else {
            *self
        }
    }

    pub fn tempo(&self) -> (r: u16)
        ensures
            r == self.tempo_spec(),
    {
        match self {
            LastChange::Static(n) => *n,
            LastChange::Speculative(n, _) => *n,
        }
    }

    /// The same tempo, known for good.
    pub fn collapse(&self) -> (r: LastChange<'static>)
        ensures
            r == LastChange::Static(self.tempo_spec()),
    {
        LastChange::Static(self.tempo())
    }
}

/// The positions seen so far, by hash without the bit for the side to
/// move: a table of counts, or one more position on top of what was seen
/// before.
pub enum ThreefoldRule<'a> {
    Static(HashMap<HashResult, usize>),
    Speculative(HashResult, &'a ThreefoldRule<'a>),
}

/// The count that a table holds for a word.
pub open spec fn held(m: Map<HashResult, usize>, word: HashResult) -> nat {
    if m.contains_key(word) {
        m[word] as nat
    } else {
        0
    }
}

/// A count as far as the machine can hold it.
pub open spec fn capped(n: nat) -> usize {
    if n <= usize::MAX {
        n as usize
    } else {
        usize::MAX
    }
}

/// How often a word occurs among the first `n` of a list of hashes, the
/// bit for the side to move set aside.
pub open spec fn seen_among(hashes: Seq<HashResult>, n: int, word: HashResult) -> nat
    decreases n,
{
    if n <= 0 {
        0
    } else {
        seen_among(hashes, n - 1, word) + (if hashes[n - 1] & HASH_BITS == word {
            1nat
        } else {
            0nat
        })
    }
}

impl<'a> View for ThreefoldRule<'a> {
    type V = Multiset<HashResult>;

    /// The positions seen, each as often as it was seen.
    open spec fn view(&self) -> Multiset<HashResult> {
        self.seen()
    }
}

impl<'a> ThreefoldRule<'a> {
    /// The positions seen, each as often as it was seen.
    pub open spec fn seen(&self) -> Multiset<HashResult>
        decreases self,
    {
        match self {
            ThreefoldRule::Static(m) => Multiset::from_map(m@.map_values(|c: usize| c as nat)),
            ThreefoldRule::Speculative(h, parent) => parent.seen().insert(*h),
        }
    }

    /// How often a position of this word has been seen.
    pub open spec fn occurrences(&self, word: HashResult) -> nat {
        self.seen().count(word)
    }

    /// How often a position of this hash has been seen, whoever was to
    /// move.
    pub open spec fn count_spec(&self, hash: HashResult) -> nat {
        self.occurrences(hash & HASH_BITS)
    }

    /// What a table of counts holds is how often each word was seen.
    pub proof fn lemma_static(m: HashMap<HashResult, usize>, w: HashResult)
        ensures
            ThreefoldRule::Static(m).occurrences(w) == held(m@, w),
    {
        let counts = m@.map_values(|c: usize| c as nat);
        assert(counts.dom() =~= m@.dom());
        assert(counts.dom().finite());
    }

    /// No position seen.
    pub fn empty() -> (r: ThreefoldRule<'static>)
        ensures
            r@ == Multiset::<HashResult>::empty(),
    {
        let r = ThreefoldRule::Static(HashMap::new());
        proof {
            assert forall|w: HashResult| r@.count(w) == 0 by {
                Self::lemma_static(r->Static_0, w);
            }
            assert(r@ =~= Multiset::<HashResult>::empty());
        }
        r
    }

    /// One position seen once.
    pub fn start(hash: HashResult) -> (r: ThreefoldRule<'static>)
        ensures
            r@ == Multiset::singleton(hash & HASH_BITS),
    {
        let mut m = HashMap::new();
        m.insert(hash & HASH_BITS, 1usize);
        let r = ThreefoldRule::Static(m);
        proof {
            assert forall|w: HashResult|
                r@.count(w) == Multiset::singleton(hash & HASH_BITS).count(w) by {
                Self::lemma_static(m, w);
            }
            assert(r@ =~= Multiset::singleton(hash & HASH_BITS));
        }
        r
    }

    /// The positions of a list of hashes, each seen as often as it occurs
    /// there.
    pub fn from_iter(it: &[HashResult]) -> (r: ThreefoldRule<'static>)
        ensures
            forall|w: HashResult| r.occurrences(w) == capped(seen_among(it@, it@.len() as int, w)),
    {
        let mut res: HashMap<HashResult, usize> = HashMap::new();
        let mut n: usize = 0;
        while n < it.len()
            invariant
                n <= it@.len(),
                forall|w: HashResult| #[trigger] held(res@, w) == capped(seen_among(it@, n as int, w)),
            decreases it@.len() - n,
        {
            let h = it[n] & HASH_BITS;
            let c = match res.get(&h) {
                Some(c) => *c,
                None => 0,
            };
            let c2 = if c < usize::MAX {
                c + 1
            } else {
                c
            };
            let ghost before = res@;
            res.insert(h, c2);
            proof {
                assert(c == held(before, h));
                assert forall|w: HashResult| #[trigger] held(res@, w) == capped(
                    seen_among(it@, n + 1, w),
                ) by {
                    assert(held(before, w) == capped(seen_among(it@, n as int, w)));
                }
            }
            n += 1;
        }
        proof {
            assert forall|w: HashResult|
                ThreefoldRule::Static(res).occurrences(w) == capped(
                    seen_among(it@, it@.len() as int, w),
                ) by {
                Self::lemma_static(res, w);
            }
        }
        ThreefoldRule::Static(res)
    }

    /// One more position on top of those seen.
    pub fn see(&'a self, hash: HashResult) -> (r: ThreefoldRule<'a>)
        ensures
            r == ThreefoldRule::Speculative(hash & HASH_BITS, self),
            r@ == self@.insert(hash & HASH_BITS),
    {
        ThreefoldRule::Speculative(hash & HASH_BITS, self)
    }

    /// The table of the counts, each as far as the machine can hold it.
    fn table(&self) -> (r: HashMap<HashResult, usize>)
        ensures
            forall|w: HashResult| #[trigger] held(r@, w) == capped(self.occurrences(w)),
        decreases self,
    {
        match self {
            ThreefoldRule::Static(hash_map) => {
                let r = hash_map.clone();
                proof {
                    assert forall|w: HashResult| #[trigger] held(r@, w) == capped(
                        self.occurrences(w),
                    ) by {
                        Self::lemma_static(*hash_map, w);
                    }
                }
                r
            },
            ThreefoldRule::Speculative(hash, parent) => {
                let mut res = parent.table();
                let c = match res.get(hash) {
                    Some(c) => *c,
                    None => 0,
                };
                let c2 = if c < usize::MAX {
                    c + 1
                } else {
                    c
                };
                let ghost before = res@;
                res.insert(*hash, c2);
                proof {
                    assert(c == held(before, *hash));
                    assert forall|w: HashResult| #[trigger] held(res@, w) == capped(
                        self.occurrences(w),
                    ) by {
                        assert(held(before, w) == capped(parent.occurrences(w)));
                    }
                }
                res
            },
        }
    }

    /// The same positions as one table of counts.
    pub fn collapse(&self) -> (r: ThreefoldRule<'static>)
        ensures
            r is Static,
            forall|w: HashResult| r.occurrences(w) == capped(self.occurrences(w)),
    {
        let t = self.table();
        proof {
            assert forall|w: HashResult|
                ThreefoldRule::Static(t).occurrences(w) == capped(self.occurrences(w)) by {
                Self::lemma_static(t, w);
            }
        }
        ThreefoldRule::Static(t)
    }

    /// How often a position of this hash has been seen, as far as the
    /// machine can count.
    pub fn count(&self, hash: HashResult) -> (r: usize)
        ensures
            r == capped(self.count_spec(hash)),
    {
        self.count_word(hash & HASH_BITS)
    }

    fn count_word(&self, word: HashResult) -> (r: usize)
        ensures
            r == capped(self.occurrences(word)),
        decreases self,
    {
        match self {
            ThreefoldRule::Static(hash_map) => {
                proof {
                    Self::lemma_static(*hash_map, word);
                }
                match hash_map.get(&word) {
                    Some(c) => *c,
                    None => 0,
                }
            },
            ThreefoldRule::Speculative(hash2, parent) => {
                let c = parent.count_word(word);
                if word == *hash2 && c < usize::MAX {
                    c + 1
                } else {
                    c
                }
            },
        }
    }
}

impl GameEnd {
    /// How a position stands: drawn by the clock, mate or stalemate when
    /// there is no legal move, drawn for want of material, drawn by a
    /// position seen three times, or still in play.
    pub open spec fn determine_spec(
        board: BitBoard,
        moves: Seq<Move>,
        seen: nat,
    ) -> Option<GameEnd> {
        if board.metadata.tempo - board.metadata.last_change >= CLOCK_LIMIT {
            Some(GameEnd::Draw)
        } else if moves.len() == 0 {
            if board.is_in_check_spec(board.metadata.to_move) {
                Some(GameEnd::from_color_spec(board.metadata.to_move.other_spec()))
            } else {
                Some(GameEnd::Draw)
            }
        } else if !(board.white.sufficient_spec() || board.black.sufficient_spec()) {
            Some(GameEnd::Draw)
        } else if seen >= 3 {
            Some(GameEnd::Draw)
        } else {
            None
        }
    }

    /// How a position stands, given its legal moves, its hash and the
    /// positions seen so far, itself among them.
    pub fn determine(board: &BitBoard, moves: &[Move], hash: HashResult, three: &ThreefoldRule) -> (r:
        Option<GameEnd>)
        ensures
            r == GameEnd::determine_spec(*board, moves@, three.count_spec(hash)),
    {
        if board.metadata.tempo >= board.metadata.last_change && board.metadata.tempo
            - board.metadata.last_change >= CLOCK_LIMIT {
            Some(GameEnd::Draw)
        } else if moves.len() == 0 {
            if board.is_in_check(board.metadata.to_move) {
                Some(GameEnd::from_color(board.metadata.to_move.other()))
            } else {
                Some(GameEnd::Draw)
            }
        } else if !board.sufficient_checkmating_materiel() {
            Some(GameEnd::Draw)
        } else if three.count(hash) >= 3 {
            Some(GameEnd::Draw)
        } else {
            None
        }
    }
}

} // verus!
