use vstd::prelude::*;
use crate::board::{
    Board, BoardView, lemma_make_undo_round_trip, lemma_record_undoable, view_wf,
};
use crate::moves::{Move, UciMove};
use crate::move_gen::{
    MAX_MOVES_PER_POS, generate_moves, legal_move, legal_moves, lemma_made_unique, lemma_pseudo_legal_move_ok,
};
use crate::board::made;
use crate::precomputed::PrecomputedData;

verus! {

/// A root move and the number of leaves below it.
pub struct PerftNode {
    pub mov: UciMove,
    pub nodes: usize,
}

impl PerftNode {
    pub fn new(mov: UciMove, nodes: usize) -> (r: PerftNode)
        ensures
            r.mov == mov,
            r.nodes == nodes,
    {
        PerftNode { mov, nodes }
    }

    pub fn get_move(&self) -> (r: &UciMove)
        ensures
            *r == self.mov,
    {
        &self.mov
    }

    pub fn get_node_count(&self) -> (r: usize)
        ensures
            r == self.nodes,
    {
        self.nodes
    }
}


/// The position reached from `v` by move `m`.
pub open spec fn after(v: BoardView, m: Move) -> BoardView {
    choose|q: BoardView| made(v, m, q)
}

/// The number of leaves of the tree of legal moves of depth `n` below `v`.
pub open spec fn perft_count(v: BoardView, n: nat) -> nat
    decreases n, 0nat,
{
    if n == 0 {
        1
    } else {
        sum_children(v, legal_moves(v), (n - 1) as nat)
    }
}

/// The sum, over the moves `ms` from `v`, of the leaf counts of depth `d`
/// below the positions they reach.
pub open spec fn sum_children(v: BoardView, ms: Seq<Move>, d: nat) -> nat
    decreases d, ms.len() + 1,
{
    if ms.len() == 0 {
        0
    } else {
        sum_children(v, ms.drop_last(), d) + perft_count(after(v, ms.last()), d)
    }
}

proof fn lemma_after(v: BoardView, m: Move, q: BoardView)
    requires
        made(v, m, q),
    ensures
        after(v, m) == q,
{
    lemma_made_unique(v, m, after(v, m), q);
}

proof fn lemma_sum_step(v: BoardView, ms: Seq<Move>, d: nat, i: int)
    requires
        0 <= i < ms.len(),
    ensures
        sum_children(v, ms.take(i + 1), d) == sum_children(v, ms.take(i), d) + perft_count(
            after(v, ms[i]),
            d,
        ),
{
    assert(ms.take(i + 1).drop_last() =~= ms.take(i));
}

proof fn lemma_sum_prefix_le(v: BoardView, ms: Seq<Move>, d: nat, i: int)
    requires
        0 <= i <= ms.len(),
    ensures
        sum_children(v, ms.take(i), d) <= sum_children(v, ms, d),
    decreases ms.len() - i,
{
    if i < ms.len() {
        lemma_sum_step(v, ms, d, i);
        lemma_sum_prefix_le(v, ms, d, i + 1);
    } else {
        assert(ms.take(i) =~= ms);
    }
}

proof fn lemma_sum_depth_zero(v: BoardView, ms: Seq<Move>)
    ensures
        sum_children(v, ms, 0) == ms.len(),
    decreases ms.len(),
{
    if ms.len() > 0 {
        lemma_sum_depth_zero(v, ms.drop_last());
        assert(perft_count(after(v, ms.last()), 0) == 1);
    }
}

/// A move of `legal_moves(v)` is legal.
proof fn lemma_listed_legal(v: BoardView, i: int)
    requires
        0 <= i < legal_moves(v).len(),
    ensures
        legal_move(v, legal_moves(v)[i]),
{
    crate::move_gen::candidates(v).filter_lemma(|m: Move| legal_move(v, m));
}

/// Takes a cleared move list from the pool, or a new one.
fn take_buffer(move_buffer: &mut Vec<Vec<Move>>) -> (r: Vec<Move>)
    ensures
        r@.len() == 0,
{
    let mut buffer = match move_buffer.pop() {
        Some(b) => b,
        None => Vec::with_capacity(MAX_MOVES_PER_POS),
    };
    buffer.clear();
    buffer
}

/// Counts the leaves of the move tree of depth `depth` below the position,
/// and leaves the board as it found it. Move lists are taken from and given
/// back to `move_buffer`, so that they are allocated once per depth.
pub fn count_nodes(depth: u8, board: &mut Board, data: &PrecomputedData, move_buffer: &mut Vec<Vec<Move>>) -> (r: u64)
    requires
        old(board).wf(),
        data.wf(),
        depth > 0,
        perft_count(old(board)@, depth as nat) <= u64::MAX,
    ensures
        final(board)@ == old(board)@,
        r == perft_count(old(board)@, depth as nat),
    decreases depth,
{
    let ghost p = board@;
    let mut current_moves = take_buffer(move_buffer);
    generate_moves(&mut current_moves, board, data);
    let ghost ms = legal_moves(p);
    assert(current_moves@ =~= ms);
    if depth == 1 {
        proof {
            lemma_sum_depth_zero(p, ms);
        }
        let n = current_moves.len() as u64;
        move_buffer.push(current_moves);
        return n;
    }
    let ghost d = (depth - 1) as nat;
    let mut child_moves = take_buffer(move_buffer);
    let mut nodes: u64 = 0;
    let mut i: usize = 0;
    proof {
        assert(ms.take(0) =~= Seq::<Move>::empty());
    }
    while i < current_moves.len()
        invariant
            board@ == p,
            view_wf(p),
            data.wf(),
            depth >= 2,
            d == depth - 1,
            current_moves@ == ms,
            ms == legal_moves(p),
            i <= ms.len(),
            perft_count(p, depth as nat) == sum_children(p, ms, d),
            perft_count(p, depth as nat) <= u64::MAX,
            nodes == sum_children(p, ms.take(i as int), d),
        decreases ms.len() - i,
    {
        let mov = current_moves[i];
        proof {
            lemma_listed_legal(p, i as int);
            lemma_pseudo_legal_move_ok(p, mov);
            lemma_sum_step(p, ms, d, i as int);
            lemma_sum_prefix_le(p, ms, d, i + 1);
        }
        let move_record = board.make_move(mov);
        let ghost q = board@;
        proof {
            lemma_record_undoable(p, mov, move_record, q);
            lemma_after(p, mov, q);
        }
        let child_nodes = if depth == 2 {
            child_moves.clear();
            generate_moves(&mut child_moves, board, data);
            proof {
                assert(child_moves@ =~= legal_moves(q));
                lemma_sum_depth_zero(q, legal_moves(q));
            }
            child_moves.len() as u64
        } else {
            count_nodes(depth - 1, board, data, move_buffer)
        };
        board.undo_move(move_record);
        proof {
            lemma_make_undo_round_trip(p, mov, move_record, q, board@);
        }
        nodes = nodes + child_nodes;
        i += 1;
    }
    proof {
        assert(ms.take(ms.len() as int) =~= ms);
    }
    move_buffer.push(child_moves);
    move_buffer.push(current_moves);
    nodes
}

/// The number of leaves of the move tree of depth `depth`; 1 at depth 0.
pub fn perft(depth: u8, board: &mut Board, data: &PrecomputedData) -> (r: u64)
    requires
        old(board).wf(),
        data.wf(),
        perft_count(old(board)@, depth as nat) <= u64::MAX,
    ensures
        final(board)@ == old(board)@,
        r == perft_count(old(board)@, depth as nat),
{
    if depth == 0 {
        return 1;
    }
    let mut move_buffer: Vec<Vec<Move>> = Vec::new();
    count_nodes(depth, board, data, &mut move_buffer)
}

/// For each legal root move, in the order of `legal_moves`, the number of
/// leaves below it at depth `depth`.
pub fn perft_divide(depth: u8, board: &mut Board, data: &PrecomputedData) -> (r: Vec<(Move, u64)>)
    requires
        old(board).wf(),
        data.wf(),
        depth > 0,
        perft_count(old(board)@, depth as nat) <= u64::MAX,
    ensures
        final(board)@ == old(board)@,
        r@.len() == legal_moves(old(board)@).len(),
        forall|i: int|
            0 <= i < r@.len() ==> #[trigger] r@[i].0 == legal_moves(old(board)@)[i] && r@[i].1
                == perft_count(after(old(board)@, legal_moves(old(board)@)[i]), (depth - 1) as nat),
{
    let ghost p = board@;
    let ghost d = (depth - 1) as nat;
    let mut root_moves: Vec<Move> = Vec::new();
    generate_moves(&mut root_moves, board, data);
    let ghost ms = legal_moves(p);
    assert(root_moves@ =~= ms);
    let mut move_buffer: Vec<Vec<Move>> = Vec::new();
    let mut result: Vec<(Move, u64)> = Vec::new();
    let mut i: usize = 0;
    while i < root_moves.len()
        invariant
            board@ == p,
            view_wf(p),
            data.wf(),
            depth > 0,
            d == depth - 1,
            root_moves@ == ms,
            ms == legal_moves(p),
            perft_count(p, depth as nat) == sum_children(p, ms, d),
            perft_count(p, depth as nat) <= u64::MAX,
            i <= ms.len(),
            result@.len() == i,
            forall|j: int|
                0 <= j < i ==> #[trigger] result@[j].0 == ms[j] && result@[j].1 == perft_count(
                    after(p, ms[j]),
                    d,
                ),
        decreases ms.len() - i,
    {
        let mov = root_moves[i];
        proof {
            lemma_listed_legal(p, i as int);
            lemma_pseudo_legal_move_ok(p, mov);
            lemma_sum_step(p, ms, d, i as int);
            lemma_sum_prefix_le(p, ms, d, i + 1);
        }
        let move_record = board.make_move(mov);
        let ghost q = board@;
        proof {
            lemma_record_undoable(p, mov, move_record, q);
            lemma_after(p, mov, q);
        }
        let child_nodes = if depth == 1 {
            1
        } else {
            count_nodes(depth - 1, board, data, &mut move_buffer)
        };
        board.undo_move(move_record);
        proof {
            lemma_make_undo_round_trip(p, mov, move_record, q, board@);
        }
        result.push((mov, child_nodes));
        i += 1;
    }
    result
}

} // verus!
