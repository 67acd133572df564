//! Move ordering for the search: hash move first, then captures by most valuable
//! victim / least valuable attacker, then killer moves, then the history heuristic.

use vstd::prelude::*;
use crate::board::board::{Board, BoardModel, on_board};
use crate::board::chess_move::ChessMove;
use crate::board::pieces::Piece;

verus! {

#[derive(Debug, Clone, Copy, PartialEq, Eq, PartialOrd, Ord)]
pub struct MoveScore(pub i32);

impl MoveScore {
    pub const KILLER_SCORE: i32 = 8000;

    pub const HASH_MOVE_SCORE: i32 = 16000;

    pub const MIN_CAPTURE_SCORE: i32 = 105 * 100;

    pub const MAX_CAPTURE_SCORE: i32 = 900 * 100;
}

/// The value of a piece for capture ordering, in pawns.
pub open spec fn order_value(p: Piece) -> int {
    match p {
        Piece::Empty => 0,
        Piece::WhitePawn | Piece::BlackPawn => 1,
        Piece::WhiteKnight | Piece::BlackKnight => 3,
        Piece::WhiteBishop | Piece::BlackBishop => 3,
        Piece::WhiteRook | Piece::BlackRook => 5,
        Piece::WhiteQueen | Piece::BlackQueen => 9,
        Piece::WhiteKing | Piece::BlackKing => 0,
    }
}

/// Most valuable victim, least valuable attacker: ten times the victim's value
/// less the value of the piece on the move's origin.
pub open spec fn mvv_lva(m: BoardModel, mv: ChessMove, victim: Piece) -> int {
    10 * order_value(victim) - order_value(m.at(mv.from.0 as int, mv.from.1 as int))
}

/// The killer moves stored in one slot, most recent first.
pub open spec fn killer_list(slot: (Option<ChessMove>, Option<ChessMove>)) -> Seq<ChessMove> {
    (match slot.0 { Some(a) => seq![a], None => Seq::<ChessMove>::empty() })
        + (match slot.1 { Some(b) => seq![b], None => Seq::<ChessMove>::empty() })
}

/// Two moves join the same squares.
pub open spec fn same_squares(a: ChessMove, b: ChessMove) -> bool {
    a.from == b.from && a.to == b.to
}

/// The history table slot of a move: its destination square.
pub open spec fn history_index(mv: ChessMove) -> int {
    mv.to.0 * 8 + mv.to.1
}

pub open spec fn saturating_sum(a: int, b: int) -> int {
    if a + b > u32::MAX { u32::MAX as int } else { a + b }
}

/// The hash move joins the same squares as the move.
pub open spec fn hash_hit(hash_move: Option<ChessMove>, mv: ChessMove) -> bool {
    match hash_move {
        Some(hm) => same_squares(hm, mv),
        None => false,
    }
}

/// The move can be scored without reading outside the board or subtracting
/// below zero: it is the hash move, or it lands on the board and a capture
/// comes from the board with a victim worth at least a tenth of the attacker.
pub open spec fn scorable(m: BoardModel, mv: ChessMove, hash_move: Option<ChessMove>) -> bool {
    hash_hit(hash_move, mv) || {
        &&& on_board(mv.to.0 as int, mv.to.1 as int)
        &&& m.at(mv.to.0 as int, mv.to.1 as int) != Piece::Empty ==> {
            &&& on_board(mv.from.0 as int, mv.from.1 as int)
            &&& mvv_lva(m, mv, m.at(mv.to.0 as int, mv.to.1 as int)) >= 0
        }
    }
}

/// `idx` lists the positions 0..n of `keys` by decreasing key, ties in their
/// original order: a stable sort from best to worst.
pub open spec fn sorted_order(keys: Seq<int>, idx: Seq<int>) -> bool {
    &&& idx.len() == keys.len()
    &&& forall|k: int| 0 <= k < idx.len() ==> 0 <= #[trigger] idx[k] < keys.len()
    &&& forall|a: int, b: int| #![trigger idx[a], idx[b]] 0 <= a < b < idx.len()
        ==> keys[idx[a]] > keys[idx[b]] || (keys[idx[a]] == keys[idx[b]] && idx[a] < idx[b])
}

/// The killer slots after recording `mv` at `depth` (with `limit` the deepest slot).
pub open spec fn with_killer(
    killers: Seq<(Option<ChessMove>, Option<ChessMove>)>,
    limit: int,
    depth: int,
    mv: ChessMove,
) -> Seq<(Option<ChessMove>, Option<ChessMove>)> {
    if depth > limit || killers[depth].0 == Some(mv) {
        killers
    } else {
        killers.update(depth, (Some(mv), killers[depth].0))
    }
}

/// The history counters after a cutoff by `mv` at `depth`.
pub open spec fn with_history(table: Seq<u32>, mv: ChessMove, depth: int) -> Seq<u32> {
    let i = history_index(mv);
    if i < 12 * 64 {
        table.update(i, saturating_sum(table[i] as int, depth * depth) as u32)
    } else {
        table
    }
}

/// Recording a killer makes it the first killer of its depth, and recording the
/// same move again changes nothing.
pub proof fn lemma_killer_recorded_first(
    killers: Seq<(Option<ChessMove>, Option<ChessMove>)>,
    limit: int,
    depth: int,
    mv: ChessMove,
)
    requires
        0 <= depth <= limit,
        killers.len() == limit + 1,
    ensures
        killer_list(with_killer(killers, limit, depth, mv)[depth])[0] == mv,
        with_killer(with_killer(killers, limit, depth, mv), limit, depth, mv) == with_killer(killers, limit, depth, mv),
{
}

/// Recording two different killers at one depth keeps both, the most recent first.
pub proof fn lemma_killers_most_recent_first(
    killers: Seq<(Option<ChessMove>, Option<ChessMove>)>,
    limit: int,
    depth: int,
    first: ChessMove,
    second: ChessMove,
)
    requires
        0 <= depth <= limit,
        killers.len() == limit + 1,
        killers[depth] == (None::<ChessMove>, None::<ChessMove>),
        first != second,
    ensures
        killer_list(with_killer(with_killer(killers, limit, depth, first), limit, depth, second)[depth])
            == seq![second, first],
{
    let k1 = with_killer(killers, limit, depth, first);
    assert(k1[depth] == (Some(first), None::<ChessMove>));
    assert(killer_list(with_killer(k1, limit, depth, second)[depth]) =~= seq![second, first]);
}

/// A cutoff at depth `d` raises the move's history counter by d squared (saturating).
pub proof fn lemma_history_adds_depth_squared(table: Seq<u32>, mv: ChessMove, depth: int)
    requires
        table.len() == 12 * 64,
        0 <= history_index(mv) < 12 * 64,
        0 <= depth,
        table[history_index(mv)] as int + depth * depth <= u32::MAX,
    ensures
        with_history(table, mv, depth)[history_index(mv)] == table[history_index(mv)] + depth * depth,
{
}

pub struct MoveOrderer {
    killer_moves: Vec<(Option<ChessMove>, Option<ChessMove>)>,
    history: Vec<u32>,
    max_depth: u32,
}

impl MoveOrderer {
    /// The two killer slots of each depth.
    pub closed spec fn killers(&self) -> Seq<(Option<ChessMove>, Option<ChessMove>)> {
        self.killer_moves@
    }

    /// The history counters, one per destination square.
    pub closed spec fn history_table(&self) -> Seq<u32> {
        self.history@
    }

    pub closed spec fn depth_limit(&self) -> u32 {
        self.max_depth
    }

    /// One killer slot for each depth up to the limit, and one history counter per square.
    pub open spec fn wf(&self) -> bool {
        &&& self.killers().len() == self.depth_limit() + 1
        &&& self.history_table().len() == 12 * 64
    }

    /// The killer moves recorded at a depth, most recent first.
    pub open spec fn killers_at(&self, depth: int) -> Seq<ChessMove> {
        if depth > self.depth_limit() { Seq::empty() } else { killer_list(self.killers()[depth]) }
    }

    /// The history counter of a move (zero outside the table).
    pub open spec fn history_of(&self, mv: ChessMove) -> int {
        let i = history_index(mv);
        if 0 <= i < self.history_table().len() { self.history_table()[i] as int } else { 0 }
    }

    /// The ordering score of a move: the hash move first, captures by MVV-LVA,
    /// killers of this depth, then the history counter, capped below the killers.
    pub open spec fn move_score(&self, mv: ChessMove, m: BoardModel, depth: int, hash_move: Option<ChessMove>) -> int {
        if hash_hit(hash_move, mv) {
            16000
        } else if m.at(mv.to.0 as int, mv.to.1 as int) != Piece::Empty {
            mvv_lva(m, mv, m.at(mv.to.0 as int, mv.to.1 as int))
        } else if exists|k: int| 0 <= k < self.killers_at(depth).len() && #[trigger] same_squares(self.killers_at(depth)[k], mv) {
            8000
        } else {
            let h = self.history_of(mv) as u32 as i32;
            if h < 7999 { h as int } else { 7999 }
        }
    }

    /// The ordering scores of a list of moves.
    pub open spec fn score_keys(&self, moves: Seq<ChessMove>, m: BoardModel, depth: int, hash_move: Option<ChessMove>) -> Seq<int> {
        Seq::new(moves.len(), |i: int| self.move_score(moves[i], m, depth, hash_move))
    }

    pub fn new(max_depth: u32) -> (o: Self)
        ensures
            o.wf(),
            o.depth_limit() == max_depth,
            forall|d: int| 0 <= d <= max_depth ==> #[trigger] o.killers()[d] == (None::<ChessMove>, None::<ChessMove>),
            forall|i: int| 0 <= i < 12 * 64 ==> #[trigger] o.history_table()[i] == 0,
    {
        let mut killer_moves: Vec<(Option<ChessMove>, Option<ChessMove>)> = Vec::new();
        let mut d: u32 = 0;
        loop
            invariant_except_break
                d <= max_depth,
                killer_moves@.len() == d,
                forall|j: int| 0 <= j < d ==> #[trigger] killer_moves@[j] == (None::<ChessMove>, None::<ChessMove>),
            ensures
                killer_moves@.len() == max_depth + 1,
                forall|j: int| 0 <= j <= max_depth ==> #[trigger] killer_moves@[j] == (None::<ChessMove>, None::<ChessMove>),
            decreases max_depth - d,
        {
            killer_moves.push((None, None));
            if d == max_depth {
                break;
            }
            d = d + 1;
        }
        let mut history: Vec<u32> = Vec::new();
        let mut i: usize = 0;
        while i < 12 * 64
            invariant
                i <= 12 * 64,
                history@.len() == i,
                forall|j: int| 0 <= j < i ==> #[trigger] history@[j] == 0,
            decreases 12 * 64 - i,
        {
            history.push(0);
            i = i + 1;
        }
        MoveOrderer { killer_moves, history, max_depth }
    }

    /// Forgets every killer move and history counter.
    pub fn clear(&mut self)
        requires
            old(self).wf(),
        ensures
            final(self).wf(),
            final(self).depth_limit() == old(self).depth_limit(),
            forall|d: int| 0 <= d <= final(self).depth_limit() ==> #[trigger] final(self).killers()[d] == (None::<ChessMove>, None::<ChessMove>),
            forall|i: int| 0 <= i < 12 * 64 ==> #[trigger] final(self).history_table()[i] == 0,
    {
        let mut d: usize = 0;
        while d < self.killer_moves.len()
            invariant
                d <= self.killer_moves@.len(),
                self.killer_moves@.len() == old(self).killer_moves@.len(),
                self.history@ == old(self).history@,
                self.max_depth == old(self).max_depth,
                forall|j: int| 0 <= j < d ==> #[trigger] self.killer_moves@[j] == (None::<ChessMove>, None::<ChessMove>),
            decreases self.killer_moves@.len() - d,
        {
            self.killer_moves.set(d, (None, None));
            d = d + 1;
        }
        let mut i: usize = 0;
        while i < self.history.len()
            invariant
                i <= self.history@.len(),
                self.history@.len() == old(self).history@.len(),
                self.killer_moves@.len() == old(self).killer_moves@.len(),
                self.max_depth == old(self).max_depth,
                forall|j: int| 0 <= j < self.killer_moves@.len() ==> #[trigger] self.killer_moves@[j] == (None::<ChessMove>, None::<ChessMove>),
                forall|j: int| 0 <= j < i ==> #[trigger] self.history@[j] == 0,
            decreases self.history@.len() - i,
        {
            self.history.set(i, 0);
            i = i + 1;
        }
    }

    /// Records a move that caused a cutoff at a depth: it becomes the first killer
    /// and the previous first killer moves to second place, unless it already is first.
    pub fn record_killer(&mut self, depth: u32, mv: ChessMove)
        requires
            old(self).wf(),
        ensures
            final(self).wf(),
            final(self).depth_limit() == old(self).depth_limit(),
            final(self).history_table() == old(self).history_table(),
            final(self).killers() == with_killer(old(self).killers(), old(self).depth_limit() as int, depth as int, mv),
    {
        if depth > self.max_depth {
            return;
        }
        let idx = depth as usize;
        let (first, _second) = self.killer_moves[idx];
        let same = match first {
            Some(k) => k == mv,
            None => false,
        };
        if !same {
            self.killer_moves.set(idx, (Some(mv), first));
        }
    }

    /// Adds depth squared (saturating) to the history counter of the move's destination.
    pub fn update_history(&mut self, mv: ChessMove, depth: u32)
        requires
            old(self).wf(),
            depth * depth <= u32::MAX,
            mv.to.0 * 8 + mv.to.1 <= usize::MAX,
        ensures
            final(self).wf(),
            final(self).depth_limit() == old(self).depth_limit(),
            final(self).killers() == old(self).killers(),
            final(self).history_table() == with_history(old(self).history_table(), mv, depth as int),
    {
        let piece_idx = self.piece_to_history_index(mv.from);
        let square_idx = mv.to.0 * 8 + mv.to.1;
        let idx = piece_idx * 64 + square_idx;
        if idx < self.history.len() {
            let bonus = depth * depth;
            let updated = self.history[idx].saturating_add(bonus);
            self.history.set(idx, updated);
        }
    }

    /// The killer moves recorded at a depth, most recent first.
    pub fn get_killers(&self, depth: u32) -> (v: Vec<ChessMove>)
        requires
            self.wf(),
        ensures
            v@ == self.killers_at(depth as int),
    {
        let mut v: Vec<ChessMove> = Vec::new();
        if depth > self.max_depth {
            return v;
        }
        let (first, second) = self.killer_moves[depth as usize];
        if let Some(a) = first {
            v.push(a);
        }
        if let Some(b) = second {
            v.push(b);
        }
        proof {
            assert(v@ =~= killer_list(self.killers()[depth as int]));
        }
        v
    }

    /// The history counter of a move.
    pub fn get_history_score(&self, mv: ChessMove) -> (h: u32)
        requires
            self.wf(),
            mv.to.0 * 8 + mv.to.1 <= usize::MAX,
        ensures
            h == self.history_of(mv),
    {
        let piece_idx = self.piece_to_history_index(mv.from);
        let square_idx = mv.to.0 * 8 + mv.to.1;
        let idx = piece_idx * 64 + square_idx;
        if idx < self.history.len() {
            self.history[idx]
        } else {
            0
        }
    }

    /// Every piece shares one history table.
    fn piece_to_history_index(&self, _from: (usize, usize)) -> (i: usize)
        ensures
            i == 0,
    {
        0
    }

    /// The ordering score of a move.
    pub fn score_move(&self, mv: ChessMove, board: &Board, depth: u32, hash_move: Option<ChessMove>) -> (s: MoveScore)
        requires
            self.wf(),
            scorable(board@, mv, hash_move),
        ensures
            s.0 == self.move_score(mv, board@, depth as int, hash_move),
    {
        if let Some(hm) = hash_move {
            if hm.from.0 == mv.from.0 && hm.from.1 == mv.from.1 && hm.to.0 == mv.to.0 && hm.to.1 == mv.to.1 {
                return MoveScore(16000);
            }
        }
        let target_piece = board.squares[mv.to.0][mv.to.1];
        if target_piece != Piece::Empty {
            let score = Self::mvv_lva_score(mv, target_piece, board);
            return MoveScore(score);
        }
        let killers = self.get_killers(depth);
        let mut k: usize = 0;
        while k < killers.len()
            invariant
                k <= killers@.len(),
                killers@ == self.killers_at(depth as int),
                !hash_hit(hash_move, mv),
                board@.at(mv.to.0 as int, mv.to.1 as int) == Piece::Empty,
                forall|j: int| 0 <= j < k ==> !#[trigger] same_squares(killers@[j], mv),
            decreases killers@.len() - k,
        {
            let killer = killers[k];
            if killer.from.0 == mv.from.0 && killer.from.1 == mv.from.1 && killer.to.0 == mv.to.0
                && killer.to.1 == mv.to.1
            {
                assert(same_squares(killers@[k as int], mv));
                return MoveScore(8000);
            }
            k = k + 1;
        }
        let history_score = self.get_history_score(mv);
        let h = #[verifier::truncate] (history_score as i32);
        MoveScore(if h < 7999 { h } else { 7999 })
    }

    /// Most valuable victim, least valuable attacker.
    pub fn mvv_lva_score(mv: ChessMove, victim: Piece, board: &Board) -> (s: i32)
        requires
            on_board(mv.from.0 as int, mv.from.1 as int),
            mvv_lva(board@, mv, victim) >= 0,
        ensures
            s == mvv_lva(board@, mv, victim),
    {
        let attacker = board.squares[mv.from.0][mv.from.1];
        let victim_value = Self::piece_value(victim);
        let attacker_value = Self::piece_value(attacker);
        (victim_value * 10 - attacker_value) as i32
    }

    /// The value of a piece for capture ordering, in pawns.
    pub fn piece_value(piece: Piece) -> (v: u32)
        ensures
            v == order_value(piece),
    {
        match piece {
            Piece::Empty => 0,
            Piece::WhitePawn | Piece::BlackPawn => 1,
            Piece::WhiteKnight | Piece::BlackKnight => 3,
            Piece::WhiteBishop | Piece::BlackBishop => 3,
            Piece::WhiteRook | Piece::BlackRook => 5,
            Piece::WhiteQueen | Piece::BlackQueen => 9,
            Piece::WhiteKing | Piece::BlackKing => 0,
        }
    }

    /// Sorts the moves from best to worst score; moves of equal score keep their order.
    pub fn sort_moves(&self, moves: &mut Vec<ChessMove>, board: &Board, depth: u32, hash_move: Option<ChessMove>)
        requires
            self.wf(),
            forall|i: int| 0 <= i < old(moves)@.len() ==> scorable(board@, #[trigger] old(moves)@[i], hash_move),
        ensures
            final(moves)@.len() == old(moves)@.len(),
            exists|idx: Seq<int>| {
                &&& #[trigger] sorted_order(self.score_keys(old(moves)@, board@, depth as int, hash_move), idx)
                &&& forall|k: int| 0 <= k < idx.len() ==> #[trigger] final(moves)@[k] == old(moves)@[idx[k]]
            },
    {
        let ghost orig = moves@;
        let n = moves.len();
        let mut keys: Vec<i32> = Vec::new();
        let mut i: usize = 0;
        while i < n
            invariant
                i <= n,
                n == moves@.len(),
                moves@ == orig,
                self.wf(),
                forall|j: int| 0 <= j < orig.len() ==> scorable(board@, #[trigger] orig[j], hash_move),
                keys@.len() == i,
                forall|j: int| 0 <= j < i ==> #[trigger] keys@[j] == self.move_score(orig[j], board@, depth as int, hash_move),
            decreases n - i,
        {
            let s = self.score_move(moves[i], board, depth, hash_move);
            keys.push(s.0);
            i = i + 1;
        }
        let ghost kseq = self.score_keys(orig, board@, depth as int, hash_move);
        assert(forall|j: int| 0 <= j < n ==> #[trigger] kseq[j] == keys@[j] as int);
        let mut order: Vec<usize> = Vec::new();
        let mut i: usize = 0;
        while i < n
            invariant
                i <= n,
                n == keys@.len(),
                n == kseq.len(),
                forall|j: int| 0 <= j < n ==> #[trigger] kseq[j] == keys@[j] as int,
                order@.len() == i,
                forall|k: int| 0 <= k < order@.len() ==> #[trigger] order@[k] < i,
                forall|a: int, b: int| #![trigger order@[a], order@[b]] 0 <= a < b < order@.len()
                    ==> kseq[order@[a] as int] > kseq[order@[b] as int]
                        || (kseq[order@[a] as int] == kseq[order@[b] as int] && order@[a] < order@[b]),
            decreases n - i,
        {
            let key = keys[i];
            let mut p: usize = 0;
            while p < order.len() && keys[order[p]] >= key
                invariant
                    p <= order@.len(),
                    order@.len() == i,
                    i < n,
                    n == keys@.len(),
                    key == keys@[i as int],
                    forall|k: int| 0 <= k < order@.len() ==> #[trigger] order@[k] < i,
                    forall|k: int| 0 <= k < p ==> keys@[#[trigger] order@[k] as int] >= key,
                decreases order@.len() - p,
            {
                p = p + 1;
            }
            let ghost before = order@;
            proof {
                before.insert_ensures(p as int, i);
                assert forall|k: int| p <= k < before.len() implies kseq[#[trigger] before[k] as int] < kseq[i as int] by {
                    if kseq[before[k] as int] >= kseq[i as int] {
                        assert(kseq[before[p as int] as int] >= kseq[before[k] as int]);
                    }
                }
            }
            order.insert(p, i);
            proof {
                assert forall|a: int, b: int| #![trigger order@[a], order@[b]] 0 <= a < b < order@.len()
                    implies kseq[order@[a] as int] > kseq[order@[b] as int]
                        || (kseq[order@[a] as int] == kseq[order@[b] as int] && order@[a] < order@[b]) by {
                    if b < p {
                        assert(order@[a] == before[a] && order@[b] == before[b]);
                    } else if b == p {
                        assert(order@[a] == before[a]);
                    } else if a < p {
                        assert(order@[a] == before[a] && order@[b] == before[b - 1]);
                    } else if a == p {
                        assert(order@[b] == before[b - 1]);
                    } else {
                        assert(order@[a] == before[a - 1] && order@[b] == before[b - 1]);
                    }
                }
            }
            i = i + 1;
        }
        let mut sorted: Vec<ChessMove> = Vec::new();
        let mut k: usize = 0;
        while k < n
            invariant
                k <= n,
                n == orig.len(),
                moves@ == orig,
                order@.len() == n,
                forall|j: int| 0 <= j < n ==> #[trigger] order@[j] < n,
                sorted@.len() == k,
                forall|j: int| 0 <= j < k ==> #[trigger] sorted@[j] == orig[order@[j] as int],
            decreases n - k,
        {
            sorted.push(moves[order[k]]);
            k = k + 1;
        }
        *moves = sorted;
        proof {
            let idx = Seq::new(n as nat, |j: int| order@[j] as int);
            assert(sorted_order(kseq, idx));
            assert(forall|j: int| 0 <= j < idx.len() ==> #[trigger] moves@[j] == orig[idx[j]]);
        }
    }
}

} // verus!
