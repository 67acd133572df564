use vstd::prelude::*;
use crate::evaluation::Score;

verus! {

/// The futility margin for a depth: the entry for that depth, or the last one.
pub open spec fn margin_at(margins: Seq<Score>, depth: int) -> int {
    if depth < margins.len() { margins[depth] as int } else { margins[margins.len() - 1] as int }
}

pub struct FutilityPruning {
    pub margins: Vec<Score>,
}

impl FutilityPruning {
    pub fn new() -> (f: Self)
        ensures
            f.margins@ == seq![0i32, 100, 300, 500, 900],
    {
        FutilityPruning { margins: vec![0, 100, 300, 500, 900] }
    }

    /// A node at depth below 4 with a null window can be pruned when the static
    /// evaluation plus the depth's margin stays below alpha.
    pub fn can_prune(&self, depth: u32, alpha: Score, beta: Score, static_eval: Score) -> (r: bool)
        requires
            self.margins@.len() > 0,
            depth < 4 ==> i32::MIN <= beta - alpha <= i32::MAX,
            depth < 4 && beta - alpha <= 1 ==> i32::MIN <= static_eval + margin_at(self.margins@, depth as int) <= i32::MAX,
        ensures
            r == (depth < 4 && beta - alpha <= 1 && static_eval + margin_at(self.margins@, depth as int) < alpha),
    {
        if depth >= 4 {
            return false;
        }
        if beta - alpha > 1 {
            return false;
        }
        let margin = if (depth as usize) < self.margins.len() {
            self.margins[depth as usize]
        } else {
            self.margins[self.margins.len() - 1]
        };
        static_eval + margin < alpha
    }

    /// A move at depth below 3 can be pruned when the static evaluation plus the
    /// move's value stays 100 below alpha.
    pub fn should_prune_move(&self, depth: u32, alpha: Score, static_eval: Score, move_value: Score) -> (r: bool)
        requires
            depth < 3 ==> i32::MIN <= alpha - 100 && i32::MIN <= static_eval + move_value <= i32::MAX,
        ensures
            r == (depth < 3 && static_eval + move_value < alpha - 100),
    {
        if depth >= 3 {
            return false;
        }
        let threshold = alpha - 100;
        static_eval + move_value < threshold
    }
}

pub struct ReverseFutilityPruning {
    pub margins: Vec<Score>,
}

impl ReverseFutilityPruning {
    pub fn new() -> (f: Self)
        ensures
            f.margins@ == seq![0i32, 200, 500, 1000, 2000],
    {
        ReverseFutilityPruning { margins: vec![0, 200, 500, 1000, 2000] }
    }

    /// A node at depth below 5 can be pruned when the static evaluation less the
    /// depth's margin still reaches beta.
    pub fn can_prune(&self, depth: u32, beta: Score, static_eval: Score) -> (r: bool)
        requires
            self.margins@.len() > 0,
            depth < 5 ==> i32::MIN <= static_eval - margin_at(self.margins@, depth as int) <= i32::MAX,
        ensures
            r == (depth < 5 && static_eval - margin_at(self.margins@, depth as int) >= beta),
    {
        if depth >= 5 {
            return false;
        }
        let margin = if (depth as usize) < self.margins.len() {
            self.margins[depth as usize]
        } else {
            self.margins[self.margins.len() - 1]
        };
        static_eval - margin >= beta
    }
}

} // verus!
