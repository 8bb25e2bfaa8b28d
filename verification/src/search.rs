//! A plain minimax search over the legal moves.

use vstd::prelude::*;
use vstd::multiset::Multiset;
use crate::board::BitBoard;
use crate::enums::{GameEnd, Millipawns, DEFEAT, VICTORY};
use crate::forced_draws::ThreefoldRule;
use crate::moves::Move;
use crate::zobrist::{BitBoardHasher, HashResult, HASH_BITS};

verus! {

broadcast use vstd::multiset::group_multiset_axioms;

/// The value of a position by its pieces alone: White's less Black's.
pub open spec fn static_evaluation_spec(board: BitBoard) -> int {
    board.white.materiel_spec() - board.black.materiel_spec()
}

/// The value of a position for the side to move, looking `depth` moves
/// ahead: what the end of the game is worth if the game has ended, the
/// value of the pieces at depth 0, and else the best of what the moves
/// lead to.
pub open spec fn negamax(
    depth: nat,
    board: BitBoard,
    moves: Seq<Move>,
    hash: HashResult,
    hasher: BitBoardHasher,
    seen: Multiset<HashResult>,
) -> int
    decreases depth, 1nat, 0nat,
{
    match GameEnd::determine_spec(board, moves, seen.count(hash & HASH_BITS)) {
        Some(g) => g.value_spec(board.metadata.to_move) as int,
        None => if depth == 0 {
            static_evaluation_spec(board)
        } else {
            best_of(depth, board, moves, moves.len(), hash, hasher, seen)
        },
    }
}

/// The best for the side to move of what the first `n` moves lead to:
/// each move is worth to it what the position after the move is not worth
/// to the other side.
pub open spec fn best_of(
    depth: nat,
    board: BitBoard,
    moves: Seq<Move>,
    n: nat,
    hash: HashResult,
    hasher: BitBoardHasher,
    seen: Multiset<HashResult>,
) -> int
    decreases depth, 0nat, n,
{
    if n == 0 || depth == 0 {
        DEFEAT as int
    } else {
        let best = best_of(depth, board, moves, (n - 1) as nat, hash, hasher, seen);
        let mv = moves[n - 1];
        let new_hash = hasher.delta_spec(board.metadata, hash, mv);
        let next = board.apply_spec(mv);
        let val = -negamax(
            (depth - 1) as nat,
            next,
            next.legal_moves(),
            new_hash,
            hasher,
            seen.insert(new_hash & HASH_BITS),
        );
        if val > best {
            val
        } else {
            best
        }
    }
}

/// How many positions the search looks at.
pub open spec fn visited(
    depth: nat,
    board: BitBoard,
    moves: Seq<Move>,
    hash: HashResult,
    hasher: BitBoardHasher,
    seen: Multiset<HashResult>,
) -> nat
    decreases depth, 1nat, 0nat,
{
    if GameEnd::determine_spec(board, moves, seen.count(hash & HASH_BITS)).is_some() || depth == 0 {
        1
    } else {
        1 + visited_below(depth, board, moves, moves.len(), hash, hasher, seen)
    }
}

/// How many positions the search looks at behind the first `n` moves.
pub open spec fn visited_below(
    depth: nat,
    board: BitBoard,
    moves: Seq<Move>,
    n: nat,
    hash: HashResult,
    hasher: BitBoardHasher,
    seen: Multiset<HashResult>,
) -> nat
    decreases depth, 0nat, n,
{
    if n == 0 || depth == 0 {
        0
    } else {
        let mv = moves[n - 1];
        let new_hash = hasher.delta_spec(board.metadata, hash, mv);
        let next = board.apply_spec(mv);
        visited_below(depth, board, moves, (n - 1) as nat, hash, hasher, seen) + visited(
            (depth - 1) as nat,
            next,
            next.legal_moves(),
            new_hash,
            hasher,
            seen.insert(new_hash & HASH_BITS),
        )
    }
}

/// A count as far as the machine can hold it.
pub open spec fn capped(n: int) -> usize {
    if n <= usize::MAX {
        n as usize
    } else {
        usize::MAX
    }
}

/// The values that the search gives lie between defeat and victory.
pub proof fn lemma_negamax_bounds(
    depth: nat,
    board: BitBoard,
    moves: Seq<Move>,
    hash: HashResult,
    hasher: BitBoardHasher,
    seen: Multiset<HashResult>,
)
    ensures
        DEFEAT <= negamax(depth, board, moves, hash, hasher, seen) <= VICTORY,
    decreases depth, 1nat, 0nat,
{
    board.white.lemma_materiel_bounds();
    board.black.lemma_materiel_bounds();
    if GameEnd::determine_spec(board, moves, seen.count(hash & HASH_BITS)).is_none() && depth
        > 0 {
        lemma_best_bounds(depth, board, moves, moves.len(), hash, hasher, seen);
    }
}

pub proof fn lemma_best_bounds(
    depth: nat,
    board: BitBoard,
    moves: Seq<Move>,
    n: nat,
    hash: HashResult,
    hasher: BitBoardHasher,
    seen: Multiset<HashResult>,
)
    ensures
        DEFEAT <= best_of(depth, board, moves, n, hash, hasher, seen) <= VICTORY,
    decreases depth, 0nat, n,
{
    if n > 0 && depth > 0 {
        lemma_best_bounds(depth, board, moves, (n - 1) as nat, hash, hasher, seen);
        let mv = moves[n - 1];
        let new_hash = hasher.delta_spec(board.metadata, hash, mv);
        let next = board.apply_spec(mv);
        lemma_negamax_bounds(
            (depth - 1) as nat,
            next,
            next.legal_moves(),
            new_hash,
            hasher,
            seen.insert(new_hash & HASH_BITS),
        );
    }
}

/// The value of a position for the side to move, looking `depth` moves
/// ahead. `moves` are the moves to try in it, `hash` its hash, and
/// `threefold` the positions seen so far; `scratch` is room to work in,
/// emptied at the start and left empty; `nodes_searched` goes up by the
/// number of positions looked at.
pub fn basic_minimax(
    depth: u16,
    board: BitBoard,
    moves: &[Move],
    scratch: &mut Vec<Move>,
    hash: HashResult,
    hasher: &BitBoardHasher,
    threefold: &ThreefoldRule,
    nodes_searched: &mut usize,
) -> (r: Millipawns)
    requires
        board.metadata.tempo + depth <= u16::MAX,
    ensures
        r == negamax(depth as nat, board, moves@, hash, *hasher, threefold@),
        DEFEAT <= r <= VICTORY,
        final(scratch)@.len() == 0,
        *final(nodes_searched) == capped(
            *old(nodes_searched) + visited(depth as nat, board, moves@, hash, *hasher, threefold@),
        ),
    decreases depth, 1nat, 0nat,
{
    proof {
        lemma_negamax_bounds(depth as nat, board, moves@, hash, *hasher, threefold@);
    }
    scratch.clear();
    if *nodes_searched < usize::MAX {
        *nodes_searched += 1;
    }
    match GameEnd::determine(&board, moves, hash, threefold) {
        Some(ge) => {
            return ge.value(board.metadata.to_move);
        },
        None => {},
    }
    if depth == 0 {
        static_evaluation(board)
    } else {
        search_best(depth, board, moves, scratch, hash, hasher, threefold, nodes_searched)
    }
}

fn search_best(
    depth: u16,
    board: BitBoard,
    moves: &[Move],
    scratch: &mut Vec<Move>,
    hash: HashResult,
    hasher: &BitBoardHasher,
    threefold: &ThreefoldRule,
    nodes_searched: &mut usize,
) -> (r: Millipawns)
    requires
        depth > 0,
        board.metadata.tempo + depth <= u16::MAX,
        old(scratch)@.len() == 0,
    ensures
        r == best_of(depth as nat, board, moves@, moves@.len(), hash, *hasher, threefold@),
        final(scratch)@.len() == 0,
        *final(nodes_searched) == capped(
            *old(nodes_searched) + visited_below(
                depth as nat,
                board,
                moves@,
                moves@.len(),
                hash,
                *hasher,
                threefold@,
            ),
        ),
    decreases depth, 0nat, moves@.len(),
{
    let mut max_val = DEFEAT;
    let mut new_scratch: Vec<Move> = Vec::new();
    let mut n: usize = 0;
    while n < moves.len()
        invariant
            n <= moves@.len(),
            depth > 0,
            board.metadata.tempo + depth <= u16::MAX,
            scratch@.len() == 0,
            new_scratch@.len() == 0,
            max_val == best_of(depth as nat, board, moves@, n as nat, hash, *hasher, threefold@),
            *nodes_searched == capped(
                *old(nodes_searched) + visited_below(
                    depth as nat,
                    board,
                    moves@,
                    n as nat,
                    hash,
                    *hasher,
                    threefold@,
                ),
            ),
        decreases moves@.len() - n,
    {
        let mv = moves[n];
        let new_hash = hasher.delta(&board.metadata, hash, mv);
        let seen = threefold.see(new_hash);
        let mut b = board;
        b.apply(mv);
        assert(scratch@ =~= Seq::<Move>::empty());
        b.generate_moves(scratch);
        proof {
            lemma_negamax_bounds(
                (depth - 1) as nat,
                b,
                b.legal_moves(),
                new_hash,
                *hasher,
                seen@,
            );
        }
        let val = -basic_minimax(
            depth - 1,
            b,
            scratch.as_slice(),
            &mut new_scratch,
            new_hash,
            hasher,
            &seen,
            nodes_searched,
        );
        if val > max_val {
            max_val = val;
        }
        scratch.clear();
        n += 1;
    }
    max_val
}

/// How many lines of `depth` legal moves start in a position.
pub open spec fn lines(board: BitBoard, depth: nat) -> nat
    decreases depth, 1nat, 0nat,
{
    if depth == 0 {
        1
    } else {
        lines_behind(board, board.legal_moves(), board.legal_moves().len(), depth)
    }
}

/// How many lines of `depth` legal moves start with one of the first `n`
/// moves.
pub open spec fn lines_behind(board: BitBoard, moves: Seq<Move>, n: nat, depth: nat) -> nat
    decreases depth, 0nat, n,
{
    if n == 0 || depth == 0 {
        0
    } else {
        lines_behind(board, moves, (n - 1) as nat, depth) + lines(
            board.apply_spec(moves[n - 1]),
            (depth - 1) as nat,
        )
    }
}

/// How many lines of `depth` legal moves start in a position, as far as
/// the machine can count.
pub fn count_lines(board: BitBoard, depth: u16) -> (r: usize)
    requires
        board.metadata.tempo + depth <= u16::MAX,
    ensures
        r == capped(lines(board, depth as nat) as int),
    decreases depth,
{
    if depth == 0 {
        return 1;
    }
    let mut moves: Vec<Move> = Vec::new();
    board.generate_moves(&mut moves);
    let mut sum: usize = 0;
    let mut n: usize = 0;
    while n < moves.len()
        invariant
            n <= moves@.len(),
            depth > 0,
            board.metadata.tempo + depth <= u16::MAX,
            moves@ == board.legal_moves(),
            sum == capped(lines_behind(board, moves@, n as nat, depth as nat) as int),
        decreases moves@.len() - n,
    {
        let mut next = board;
        next.apply(moves[n]);
        let below = count_lines(next, depth - 1);
        sum = if sum <= usize::MAX - below {
            sum + below
        } else {
            usize::MAX
        };
        n += 1;
    }
    sum
}

/// The value of a position by its pieces alone: White's less Black's, in
/// thousandths of a pawn.
pub fn static_evaluation(board: BitBoard) -> (r: Millipawns)
    ensures
        r == static_evaluation_spec(board),
        DEFEAT <= r <= VICTORY,
{
    proof {
        board.white.lemma_materiel_bounds();
        board.black.lemma_materiel_bounds();
    }
    board.white.materiel() - board.black.materiel()
}

} // verus!
