use vstd::prelude::*;
use crate::board::board::{Board, BoardModel, on_board};
use crate::board::chess_move::ChessMove;
use crate::board::pieces::Piece;
use crate::evaluation::{Evaluator, EvaluationMode, Score, hand_crafted};
use crate::evaluation::advanced::pawns::pawns_in_range;
use crate::transposition_table::TranspositionTable;

verus! {

/// The value of a piece for capture ordering and exchanges (a king counts 20000).
pub open spec fn q_value(p: Piece) -> int {
    match p {
        Piece::WhitePawn | Piece::BlackPawn => 100,
        Piece::WhiteKnight | Piece::BlackKnight => 320,
        Piece::WhiteBishop | Piece::BlackBishop => 330,
        Piece::WhiteRook | Piece::BlackRook => 500,
        Piece::WhiteQueen | Piece::BlackQueen => 900,
        Piece::WhiteKing | Piece::BlackKing => 20000,
        Piece::Empty => 0,
    }
}

/// The ordering key of a capture: the victim's value less a tenth of the attacker's.
pub open spec fn capture_key(m: BoardModel, mv: ChessMove) -> int {
    q_value(m.at(mv.to.0 as int, mv.to.1 as int)) - q_value(m.at(mv.from.0 as int, mv.from.1 as int)) / 10
}

/// The legal captures among the first `n` legal moves, in generation order.
pub open spec fn capture_list(m: BoardModel, n: int) -> Seq<ChessMove>
    decreases n,
{
    if n <= 0 {
        Seq::empty()
    } else {
        let prev = capture_list(m, n - 1);
        let mv = m.legal_moves()[n - 1];
        if m.at(mv.to.0 as int, mv.to.1 as int) != Piece::Empty { prev.push(mv) } else { prev }
    }
}

/// Where an element with key `k` goes in a list ordered by decreasing key, after
/// every element with a key at least `k` (from position `p` on).
pub open spec fn insert_pos(order: Seq<int>, keys: Seq<int>, k: int, p: int) -> int
    decreases order.len() - p,
{
    if p >= order.len() { order.len() as int } else if keys[order[p]] < k { p } else { insert_pos(order, keys, k, p + 1) }
}

/// The first `n` positions of `keys` by decreasing key, equal keys in their
/// original order: a stable sort.
pub open spec fn stable_order(keys: Seq<int>, n: int) -> Seq<int>
    decreases n,
{
    if n <= 0 {
        Seq::empty()
    } else {
        let o = stable_order(keys, n - 1);
        o.insert(insert_pos(o, keys, keys[n - 1], 0), n - 1)
    }
}

/// The legal captures, best first: by decreasing key, ties in generation order.
pub open spec fn ordered_captures(m: BoardModel) -> Seq<ChessMove> {
    let c = capture_list(m, m.legal_moves().len() as int);
    let keys = Seq::new(c.len(), |i: int| capture_key(m, c[i]));
    let o = stable_order(keys, c.len() as int);
    Seq::new(c.len(), |i: int| c[o[i]])
}

/// The quick exchange value of a capture: the victim's value, less the attacker's
/// when the attacker is worth more; zero for a non-capture.
pub open spec fn quick_exchange(m: BoardModel, mv: ChessMove) -> int {
    let victim = m.at(mv.to.0 as int, mv.to.1 as int);
    let gain = q_value(victim);
    let loss = q_value(m.at(mv.from.0 as int, mv.from.1 as int));
    if victim == Piece::Empty { 0 } else if gain >= loss { gain } else { gain - loss }
}

pub open spec fn imax(a: int, b: int) -> int {
    if a >= b { a } else { b }
}

/// The quiescence search of a position: its score for the window (alpha, beta),
/// the number of nodes it visits, and whether every visited node can be
/// evaluated and expanded without failing.
pub open spec fn qnode(m: BoardModel, alpha: int, beta: int, ply: int) -> (int, int, bool)
    decreases 64 - ply, 1int, 0int,
{
    if ply >= 64 {
        (hand_crafted(m), 1, pawns_in_range(m))
    } else if !pawns_in_range(m) {
        (0, 1, false)
    } else {
        let se = hand_crafted(m);
        if se >= beta {
            (beta, 1, true)
        } else {
            let a0 = imax(alpha, se);
            if se + 200 < a0 && !m.in_check(m.turn) {
                (a0, 1, true)
            } else if !m.counters_ok() {
                (0, 1, false)
            } else {
                let caps = ordered_captures(m);
                if caps.len() == 0 {
                    (se, 1, true)
                } else {
                    let r = qloop(m, caps, 0, se, a0, beta, ply);
                    (r.0, 1 + r.1, r.2)
                }
            }
        }
    }
}

/// The search of the captures from index `i` on, with the best score and alpha so far.
pub open spec fn qloop(m: BoardModel, caps: Seq<ChessMove>, i: int, best: int, alpha: int, beta: int, ply: int) -> (int, int, bool)
    decreases 64 - ply, 0int, caps.len() - i,
{
    if ply >= 64 || i < 0 || i >= caps.len() {
        (best, 0, true)
    } else {
        let mv = caps[i];
        if quick_exchange(m, mv) < 0 || m.at(mv.from.0 as int, mv.from.1 as int) == Piece::Empty {
            qloop(m, caps, i + 1, best, alpha, beta, ply)
        } else {
            let r = qnode(m.after_move(mv.from, mv.to, mv.move_type), -beta, -alpha, ply + 1);
            let score = -r.0;
            let best2 = imax(best, score);
            let alpha2 = imax(alpha, score);
            if !r.2 {
                (0, r.1, false)
            } else if alpha2 >= beta {
                (best2, r.1, true)
            } else {
                let rest = qloop(m, caps, i + 1, best2, alpha2, beta, ply);
                (rest.0, r.1 + rest.1, rest.2)
            }
        }
    }
}

proof fn lemma_counts(m: BoardModel, alpha: int, beta: int, ply: int)
    ensures
        qnode(m, alpha, beta, ply).1 >= 1,
    decreases 64 - ply, 1int, 0int,
{
    if ply < 64 && pawns_in_range(m) {
        let se = hand_crafted(m);
        let a0 = imax(alpha, se);
        if se < beta && !(se + 200 < a0 && !m.in_check(m.turn)) && m.counters_ok() {
            let caps = ordered_captures(m);
            if caps.len() > 0 {
                lemma_loop_counts(m, caps, 0, se, a0, beta, ply);
            }
        }
    }
}

proof fn lemma_loop_counts(m: BoardModel, caps: Seq<ChessMove>, i: int, best: int, alpha: int, beta: int, ply: int)
    ensures
        qloop(m, caps, i, best, alpha, beta, ply).1 >= 0,
    decreases 64 - ply, 0int, caps.len() - i,
{
    if ply < 64 && 0 <= i < caps.len() {
        let mv = caps[i];
        if quick_exchange(m, mv) < 0 || m.at(mv.from.0 as int, mv.from.1 as int) == Piece::Empty {
            lemma_loop_counts(m, caps, i + 1, best, alpha, beta, ply);
        } else {
            let r = qnode(m.after_move(mv.from, mv.to, mv.move_type), -beta, -alpha, ply + 1);
            lemma_counts(m.after_move(mv.from, mv.to, mv.move_type), -beta, -alpha, ply + 1);
            let score = -r.0;
            lemma_loop_counts(m, caps, i + 1, imax(best, score), imax(alpha, score), beta, ply);
        }
    }
}

proof fn lemma_stable_order_range(keys: Seq<int>, n: int)
    requires
        0 <= n <= keys.len(),
    ensures
        stable_order(keys, n).len() == n,
        forall|i: int| 0 <= i < n ==> 0 <= #[trigger] stable_order(keys, n)[i] < n,
    decreases n,
{
    if n > 0 {
        lemma_stable_order_range(keys, n - 1);
        let o = stable_order(keys, n - 1);
        let p = insert_pos(o, keys, keys[n - 1], 0);
        lemma_insert_pos_range(o, keys, keys[n - 1], 0);
        o.insert_ensures(p, n - 1);
        assert forall|i: int| 0 <= i < n implies 0 <= #[trigger] stable_order(keys, n)[i] < n by {
            if i < p {
                assert(stable_order(keys, n)[i] == o[i]);
            } else if i > p {
                assert(stable_order(keys, n)[i] == o[i - 1]);
            }
        }
    }
}

proof fn lemma_insert_pos_range(order: Seq<int>, keys: Seq<int>, k: int, p: int)
    requires
        0 <= p <= order.len(),
    ensures
        p <= insert_pos(order, keys, k, p) <= order.len(),
    decreases order.len() - p,
{
    if p < order.len() && keys[order[p]] >= k {
        lemma_insert_pos_range(order, keys, k, p + 1);
    }
}

proof fn lemma_capture_list(m: BoardModel, n: int)
    requires
        0 <= n <= m.legal_moves().len(),
        m.all_sane(m.legal_moves(), 0),
    ensures
        forall|i: int| 0 <= i < capture_list(m, n).len() ==> {
            &&& m.sane_move(#[trigger] capture_list(m, n)[i])
            &&& m.at(capture_list(m, n)[i].to.0 as int, capture_list(m, n)[i].to.1 as int) != Piece::Empty
        },
        capture_list(m, n).len() <= n,
    decreases n,
{
    if n > 0 {
        lemma_capture_list(m, n - 1);
        assert(m.sane_move(m.legal_moves()[n - 1]));
    }
}

/// A generated move on a position with room in its counters can be carried out.
proof fn lemma_sane_executable(m: BoardModel, mv: ChessMove)
    requires
        m.sane_move(mv),
        m.counters_ok(),
    ensures
        m.can_execute(mv.from, mv.to, mv.move_type),
{
}

#[derive(Debug, Clone)]
pub struct QNode {
    pub depth: i32,
    pub alpha: Score,
    pub beta: Score,
    pub ply: u32,
}

impl QNode {
    pub fn new(alpha: Score, beta: Score, ply: u32) -> (q: Self)
        ensures
            q.depth == 0,
            q.alpha == alpha,
            q.beta == beta,
            q.ply == ply,
    {
        QNode { depth: 0, alpha, beta, ply }
    }

    /// The quiescence search with the hand-crafted evaluation: stand pat on the
    /// static score, prune hopeless nodes that are not in check, and try the
    /// captures best first, skipping those that lose material at once.
    pub fn search<N>(&mut self, board: &Board, evaluator: &Evaluator<N>, tt: &mut TranspositionTable, nodes: &mut u64) -> (s: Score)
        requires
            evaluator.nnue_network is None || evaluator.mode == EvaluationMode::Handcrafted,
            old(self).alpha > i32::MIN,
            old(self).beta > i32::MIN,
            qnode(board@, old(self).alpha as int, old(self).beta as int, old(self).ply as int).2,
            *old(nodes) + qnode(board@, old(self).alpha as int, old(self).beta as int, old(self).ply as int).1 <= u64::MAX,
        ensures
            s == qnode(board@, old(self).alpha as int, old(self).beta as int, old(self).ply as int).0,
            *final(nodes) == *old(nodes) + qnode(board@, old(self).alpha as int, old(self).beta as int, old(self).ply as int).1,
            s > i32::MIN,
            *final(self) == *old(self),
            final(tt)@ == old(tt)@,
        decreases 64 - old(self).ply,
    {
        let ghost m = board@;
        let ghost q = qnode(m, self.alpha as int, self.beta as int, self.ply as int);
        proof {
            lemma_counts(m, self.alpha as int, self.beta as int, self.ply as int);
        }
        *nodes = *nodes + 1;
        if self.ply >= 64 {
            return evaluator.evaluate(board);
        }
        let static_eval = evaluator.evaluate(board);
        if static_eval >= self.beta {
            return self.beta;
        }
        let mut alpha = self.alpha;
        if static_eval > alpha {
            alpha = static_eval;
        }
        let delta_margin: i32 = 200;
        if static_eval + delta_margin < alpha && !board.is_in_check(board.turn) {
            return alpha;
        }
        let moves = self.generate_capture_moves(board);
        if moves.len() == 0 {
            return static_eval;
        }
        let ghost caps = moves@;
        let ghost start_nodes = *nodes as int;
        let ghost total = qloop(m, caps, 0, static_eval as int, alpha as int, self.beta as int, self.ply as int);
        assert(q == (total.0, 1 + total.1, total.2));
        let mut best_score = static_eval;
        let mut i: usize = 0;
        while i < moves.len()
            invariant
                i <= caps.len(),
                caps == moves@,
                caps == ordered_captures(m),
                m == board@,
                m.counters_ok(),
                pawns_in_range(m),
                self.ply < 64,
                *self == *old(self),
                self.beta > i32::MIN,
                evaluator.nnue_network is None || evaluator.mode == EvaluationMode::Handcrafted,
                forall|k: int| 0 <= k < caps.len() ==> m.sane_move(#[trigger] caps[k]),
                best_score >= static_eval,
                alpha >= static_eval,
                static_eval > -200000,
                total.2,
                total.0 == qloop(m, caps, i as int, best_score as int, alpha as int, self.beta as int, self.ply as int).0,
                total.2 == qloop(m, caps, i as int, best_score as int, alpha as int, self.beta as int, self.ply as int).2,
                total.1 == (*nodes - start_nodes) + qloop(m, caps, i as int, best_score as int, alpha as int, self.beta as int, self.ply as int).1,
                start_nodes + total.1 <= u64::MAX,
                *nodes >= start_nodes,
                start_nodes == *old(nodes) + 1,
                q == qnode(m, old(self).alpha as int, old(self).beta as int, old(self).ply as int),
                q.0 == total.0,
                q.1 == 1 + total.1,
                tt@ == old(tt)@,
            decreases caps.len() - i,
        {
            let mv = moves[i];
            assert(m.sane_move(caps[i as int]));
            let see_score = self.static_exchange_evaluation(board, &mv);
            if see_score < 0 {
                i = i + 1;
                continue;
            }
            let mut child_board = *board;
            proof {
                lemma_sane_executable(m, mv);
            }
            let res = child_board.execute_move(mv.from, mv.to, mv.move_type);
            if res.is_err() {
                i = i + 1;
                continue;
            }
            let ghost child = m.after_move(mv.from, mv.to, mv.move_type);
            let ghost r = qnode(child, -(self.beta as int), -(alpha as int), self.ply + 1);
            let ghost here = qloop(m, caps, i as int, best_score as int, alpha as int, self.beta as int, self.ply as int);
            let ghost next_best = imax(best_score as int, -r.0);
            let ghost next_alpha = imax(alpha as int, -r.0);
            let ghost rest = qloop(m, caps, i + 1, next_best, next_alpha, self.beta as int, self.ply as int);
            proof {
                assert(child_board@ == child);
                assert(here == if !r.2 {
                    (0int, r.1, false)
                } else if next_alpha >= self.beta {
                    (next_best, r.1, true)
                } else {
                    (rest.0, r.1 + rest.1, rest.2)
                });
                lemma_counts(child, -(self.beta as int), -(alpha as int), self.ply + 1);
                lemma_loop_counts(m, caps, i + 1, next_best, next_alpha, self.beta as int, self.ply as int);
            }
            let mut child_node = QNode::new(-self.beta, -alpha, self.ply + 1);
            let score_neg = child_node.search(&child_board, evaluator, tt, nodes);
            let score = -score_neg;
            if score > best_score {
                best_score = score;
            }
            if score > alpha {
                alpha = score;
            }
            if alpha >= self.beta {
                return best_score;
            }
            i = i + 1;
        }
        best_score
    }

    /// The legal captures, best first.
    pub fn generate_capture_moves(&self, board: &Board) -> (v: Vec<ChessMove>)
        requires
            board@.counters_ok(),
        ensures
            v@ == ordered_captures(board@),
            forall|k: int| 0 <= k < v@.len() ==> board@.sane_move(#[trigger] v@[k]),
    {
        let ghost m = board@;
        let all_moves = board.generate_moves();
        let mut captures: Vec<ChessMove> = Vec::new();
        let mut i: usize = 0;
        while i < all_moves.len()
            invariant
                i <= all_moves@.len(),
                all_moves@ == m.legal_moves(),
                m == board@,
                m.all_sane(all_moves@, 0),
                captures@ == capture_list(m, i as int),
            decreases all_moves@.len() - i,
        {
            let mv = all_moves[i];
            assert(m.sane_move(all_moves@[i as int]));
            let target = board.squares[mv.to.0][mv.to.1];
            if target != Piece::Empty {
                captures.push(mv);
            }
            i = i + 1;
        }
        proof {
            lemma_capture_list(m, m.legal_moves().len() as int);
        }
        self.order_captures(board, &mut captures);
        captures
    }

    /// Sorts captures by decreasing key, keeping the order of equal keys.
    fn order_captures(&self, board: &Board, moves: &mut Vec<ChessMove>)
        requires
            forall|k: int| 0 <= k < old(moves)@.len() ==> board@.sane_move(#[trigger] old(moves)@[k]),
        ensures
            final(moves)@ == Seq::new(old(moves)@.len(), |i: int|
                old(moves)@[stable_order(Seq::new(old(moves)@.len(), |j: int| capture_key(board@, old(moves)@[j])), old(moves)@.len() as int)[i]]),
            forall|k: int| 0 <= k < final(moves)@.len() ==> board@.sane_move(#[trigger] final(moves)@[k]),
    {
        let ghost m = board@;
        let ghost orig = moves@;
        let n = moves.len();
        let ghost keys = Seq::new(orig.len(), |j: int| capture_key(m, orig[j]));
        let mut key_vals: Vec<i32> = Vec::new();
        let mut i: usize = 0;
        while i < n
            invariant
                i <= n,
                n == orig.len(),
                moves@ == orig,
                m == board@,
                forall|k: int| 0 <= k < orig.len() ==> m.sane_move(#[trigger] orig[k]),
                keys == Seq::new(orig.len(), |j: int| capture_key(m, orig[j])),
                key_vals@.len() == i,
                forall|k: int| 0 <= k < i ==> #[trigger] key_vals@[k] as int == keys[k],
            decreases n - i,
        {
            let mv = moves[i];
            assert(m.sane_move(orig[i as int]));
            let attacker = board.squares[mv.from.0][mv.from.1];
            let victim = board.squares[mv.to.0][mv.to.1];
            let kv = Self::piece_value(victim) - Self::piece_value(attacker) / 10;
            assert(kv as int == keys[i as int]);
            key_vals.push(kv);
            i = i + 1;
        }
        let mut order: Vec<usize> = Vec::new();
        let mut i: usize = 0;
        while i < n
            invariant
                i <= n,
                n == keys.len(),
                key_vals@.len() == n,
                forall|k: int| 0 <= k < n ==> #[trigger] key_vals@[k] as int == keys[k],
                order@.len() == i,
                order@.map_values(|x: usize| x as int) == stable_order(keys, i as int),
            decreases n - i,
        {
            proof {
                lemma_stable_order_range(keys, i as int);
            }
            let ghost o = stable_order(keys, i as int);
            let key = key_vals[i];
            let mut p: usize = 0;
            while p < order.len() && key_vals[order[p]] >= key
                invariant
                    p <= order@.len(),
                    order@.len() == i,
                    i < n,
                    n == keys.len(),
                    key_vals@.len() == n,
                    forall|k: int| 0 <= k < n ==> #[trigger] key_vals@[k] as int == keys[k],
                    key == keys[i as int],
                    order@.map_values(|x: usize| x as int) == o,
                    o == stable_order(keys, i as int),
                    forall|k: int| 0 <= k < i ==> 0 <= #[trigger] o[k] < i,
                    insert_pos(o, keys, keys[i as int], 0) == insert_pos(o, keys, keys[i as int], p as int),
                decreases order@.len() - p,
            {
                assert(o[p as int] == order@[p as int] as int);
                p = p + 1;
            }
            assert(o[p as int] == order@[p as int] as int || p == order@.len());
            assert(insert_pos(o, keys, keys[i as int], p as int) == p);
            let ghost before = order@;
            order.insert(p, i);
            proof {
                before.insert_ensures(p as int, i);
                o.insert_ensures(p as int, i as int);
                assert(order@.map_values(|x: usize| x as int) =~= stable_order(keys, i + 1));
            }
            i = i + 1;
        }
        proof {
            lemma_stable_order_range(keys, n as int);
        }
        let mut sorted: Vec<ChessMove> = Vec::new();
        let mut k: usize = 0;
        while k < n
            invariant
                k <= n,
                n == orig.len(),
                moves@ == orig,
                order@.len() == n,
                order@.map_values(|x: usize| x as int) == stable_order(keys, n as int),
                forall|j: int| 0 <= j < n ==> 0 <= #[trigger] stable_order(keys, n as int)[j] < n,
                sorted@.len() == k,
                forall|j: int| 0 <= j < k ==> #[trigger] sorted@[j] == orig[stable_order(keys, n as int)[j]],
            decreases n - k,
        {
            assert(order@[k as int] as int == stable_order(keys, n as int)[k as int]);
            sorted.push(moves[order[k]]);
            k = k + 1;
        }
        *moves = sorted;
        assert(moves@ =~= Seq::new(orig.len(), |i: int| orig[stable_order(keys, orig.len() as int)[i]]));
    }

    /// The value of a piece for capture ordering and exchanges.
    pub fn piece_value(piece: Piece) -> (v: i32)
        ensures
            v == q_value(piece),
    {
        match piece {
            Piece::WhitePawn | Piece::BlackPawn => 100,
            Piece::WhiteKnight | Piece::BlackKnight => 320,
            Piece::WhiteBishop | Piece::BlackBishop => 330,
            Piece::WhiteRook | Piece::BlackRook => 500,
            Piece::WhiteQueen | Piece::BlackQueen => 900,
            Piece::WhiteKing | Piece::BlackKing => 20000,
            Piece::Empty => 0,
        }
    }

    /// The quick exchange value of a capture.
    pub fn static_exchange_evaluation(&self, board: &Board, mv: &ChessMove) -> (s: Score)
        requires
            on_board(mv.from.0 as int, mv.from.1 as int),
            on_board(mv.to.0 as int, mv.to.1 as int),
        ensures
            s == quick_exchange(board@, *mv),
    {
        let attacker = board.squares[mv.from.0][mv.from.1];
        let victim = board.squares[mv.to.0][mv.to.1];
        if victim == Piece::Empty {
            return 0;
        }
        let gain = Self::piece_value(victim);
        let loss = Self::piece_value(attacker);
        if gain >= loss {
            return gain;
        }
        gain - loss
    }
}

pub struct QSearch {
    _max_ply: u32,
}

impl QSearch {
    /// The deepest ply the search goes to.
    pub closed spec fn max_ply(&self) -> u32 {
        self._max_ply
    }

    pub fn new() -> (q: Self)
        ensures
            q.max_ply() == 64,
    {
        QSearch { _max_ply: 64 }
    }

    /// The quiescence search of a position from the root for the window (alpha, beta).
    pub fn search<N>(&self, board: &Board, alpha: Score, beta: Score, evaluator: &Evaluator<N>, tt: &mut TranspositionTable, nodes: &mut u64) -> (s: Score)
        requires
            evaluator.nnue_network is None || evaluator.mode == EvaluationMode::Handcrafted,
            alpha > i32::MIN,
            beta > i32::MIN,
            qnode(board@, alpha as int, beta as int, 0).2,
            *old(nodes) + qnode(board@, alpha as int, beta as int, 0).1 <= u64::MAX,
        ensures
            s == qnode(board@, alpha as int, beta as int, 0).0,
            *final(nodes) == *old(nodes) + qnode(board@, alpha as int, beta as int, 0).1,
    {
        let mut qnode = QNode::new(alpha, beta, 0);
        qnode.search(board, evaluator, tt, nodes)
    }
}

} // verus!
