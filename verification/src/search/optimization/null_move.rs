use vstd::prelude::*;
use crate::board::board::Board;
use crate::evaluation::Score;

verus! {

pub struct NullMovePruning {
    pub min_depth: u32,
    pub reduction_factor: u32,
    pub cutoffs: u32,
}

impl NullMovePruning {
    pub fn new() -> (n: Self)
        ensures
            n.min_depth == 2,
            n.reduction_factor == 3,
            n.cutoffs == 0,
    {
        NullMovePruning { min_depth: 2, reduction_factor: 3, cutoffs: 0 }
    }

    /// A null move may be tried at sufficient depth, when the side to move is not
    /// in check and its static evaluation already reaches beta.
    pub fn can_prune(&self, board: &Board, depth: u32, beta: Score, static_eval: Score) -> (r: bool)
        ensures
            r == (depth >= self.min_depth && !board@.in_check(board@.turn) && static_eval >= beta),
    {
        if depth < self.min_depth {
            return false;
        }
        if board.is_in_check(board.turn) {
            return false;
        }
        if static_eval < beta {
            return false;
        }
        true
    }
}

} // verus!
