//! Perft: counting the positions reachable in a number of moves, to validate
//! move generation.

use vstd::prelude::*;
use std::collections::HashMap;
use crate::board::board::{Board, BoardModel, square_text, lemma_square_text_roundtrip, lemma_plan_executable, on_board};
use crate::board::chess_move::{ChessMove, MoveType};
use crate::board::pieces::Piece;
use crate::text::push_char;
use vstd::string::StringExecFns;
use vstd::std_specs::hash::obeys_key_model;

verus! {

/// Perft tallies as mathematical integers.
#[verifier::ext_equal]
pub ghost struct PerftCounts {
    pub nodes: int,
    pub captures: int,
    pub en_passants: int,
    pub castles: int,
    pub promotions: int,
    pub checks: int,
    pub checkmates: int,
}

pub open spec fn zero_counts() -> PerftCounts {
    PerftCounts { nodes: 0, captures: 0, en_passants: 0, castles: 0, promotions: 0, checks: 0, checkmates: 0 }
}

pub open spec fn add_counts(a: PerftCounts, b: PerftCounts) -> PerftCounts {
    PerftCounts {
        nodes: a.nodes + b.nodes,
        captures: a.captures + b.captures,
        en_passants: a.en_passants + b.en_passants,
        castles: a.castles + b.castles,
        promotions: a.promotions + b.promotions,
        checks: a.checks + b.checks,
        checkmates: a.checkmates + b.checkmates,
    }
}

pub open spec fn fits(c: PerftCounts) -> bool {
    &&& 0 <= c.nodes <= u64::MAX
    &&& 0 <= c.captures <= u64::MAX
    &&& 0 <= c.en_passants <= u64::MAX
    &&& 0 <= c.castles <= u64::MAX
    &&& 0 <= c.promotions <= u64::MAX
    &&& 0 <= c.checks <= u64::MAX
    &&& 0 <= c.checkmates <= u64::MAX
}

pub open spec fn nonneg(c: PerftCounts) -> bool {
    &&& 0 <= c.nodes
    &&& 0 <= c.captures
    &&& 0 <= c.en_passants
    &&& 0 <= c.castles
    &&& 0 <= c.promotions
    &&& 0 <= c.checks
    &&& 0 <= c.checkmates
}

/// Each tally of `a` is at most that of `b`.
pub open spec fn le_counts(a: PerftCounts, b: PerftCounts) -> bool {
    &&& a.nodes <= b.nodes
    &&& a.captures <= b.captures
    &&& a.en_passants <= b.en_passants
    &&& a.castles <= b.castles
    &&& a.promotions <= b.promotions
    &&& a.checks <= b.checks
    &&& a.checkmates <= b.checkmates
}

/// What one legal move counts by its kind: castling, en passant, promotion, or a
/// normal move onto an occupied square (a capture).
pub open spec fn kind_counts(m: BoardModel, mv: ChessMove) -> PerftCounts {
    let z = zero_counts();
    match mv.move_type {
        MoveType::Castling => PerftCounts { castles: 1, ..z },
        MoveType::EnPassant => PerftCounts { en_passants: 1, ..z },
        MoveType::Promotion(_) => PerftCounts { promotions: 1, ..z },
        MoveType::Normal => if m.at(mv.to.0 as int, mv.to.1 as int) != Piece::Empty {
            PerftCounts { captures: 1, ..z }
        } else {
            z
        },
    }
}

/// What the position after a played move counts as a check or a mate.
pub open spec fn check_counts(n: BoardModel) -> PerftCounts {
    let z = zero_counts();
    if n.in_check(n.turn) {
        if n.legal_moves().len() == 0 { PerftCounts { checkmates: 1, ..z } } else { PerftCounts { checks: 1, ..z } }
    } else {
        z
    }
}

/// The tallies of perft to a depth. At depth 0 the position counts as one node. Otherwise
/// each legal move counts by its kind and is played with its own kind; the position
/// reached counts its check or mate and is explored one level less deep.
pub open spec fn perft_spec(m: BoardModel, depth: nat) -> PerftCounts
    decreases depth, 1int, 0int,
{
    if depth == 0 {
        PerftCounts { nodes: 1, ..zero_counts() }
    } else {
        perft_moves(m, m.legal_moves(), depth)
    }
}

pub open spec fn perft_moves(m: BoardModel, s: Seq<ChessMove>, depth: nat) -> PerftCounts
    decreases depth, 0int, s.len(),
{
    if s.len() == 0 || depth == 0 {
        zero_counts()
    } else {
        add_counts(perft_moves(m, s.drop_last(), depth), move_counts(m, s.last(), depth))
    }
}

/// What one legal move contributes to perft at a depth of at least one.
pub open spec fn move_counts(m: BoardModel, mv: ChessMove, depth: nat) -> PerftCounts
    decreases depth, 0int, 0int,
{
    if depth == 0 {
        zero_counts()
    } else {
        let n = m.after_move(mv.from, mv.to, mv.move_type);
        add_counts(kind_counts(m, mv), add_counts(check_counts(n), perft_spec(n, (depth - 1) as nat)))
    }
}

/// The nodes of perft to `depth` below each move of the list, added up.
pub open spec fn child_nodes(m: BoardModel, s: Seq<ChessMove>, depth: nat) -> int
    decreases s.len(),
{
    if s.len() == 0 {
        0
    } else {
        child_nodes(m, s.drop_last(), depth)
            + perft_spec(m.after_move(s.last().from, s.last().to, s.last().move_type), depth).nodes
    }
}

proof fn lemma_perft_moves_nodes(m: BoardModel, s: Seq<ChessMove>, depth: nat)
    ensures
        perft_moves(m, s, depth + 1).nodes == child_nodes(m, s, depth),
        child_nodes(m, s, 0) == s.len(),
    decreases s.len(),
{
    if s.len() > 0 {
        lemma_perft_moves_nodes(m, s.drop_last(), depth);
        let mv = s.last();
        let n = m.after_move(mv.from, mv.to, mv.move_type);
        assert(kind_counts(m, mv).nodes == 0);
        assert(check_counts(n).nodes == 0);
        assert(((depth + 1) - 1) as nat == depth);
        assert(move_counts(m, mv, depth + 1).nodes == perft_spec(n, depth).nodes);
        assert(perft_spec(n, 0).nodes == 1);
    }
}

/// Perft counts one node at depth 0, one node per legal move at depth 1, and at
/// depth d + 1 the nodes of perft to depth d below every legal move, each played
/// with its own kind.
pub proof fn lemma_perft_nodes(m: BoardModel, depth: nat)
    ensures
        perft_spec(m, 0).nodes == 1,
        perft_spec(m, 1).nodes == m.legal_moves().len(),
        perft_spec(m, depth + 1).nodes == child_nodes(m, m.legal_moves(), depth),
{
    lemma_perft_moves_nodes(m, m.legal_moves(), depth);
    lemma_perft_moves_nodes(m, m.legal_moves(), 0);
}

/// How many moves of a list have a property.
pub open spec fn count_moves(s: Seq<ChessMove>, p: spec_fn(ChessMove) -> bool) -> int
    decreases s.len(),
{
    if s.len() == 0 {
        0
    } else {
        count_moves(s.drop_last(), p) + if p(s.last()) { 1int } else { 0int }
    }
}

/// A normal move onto an occupied square.
pub open spec fn is_capture(m: BoardModel) -> spec_fn(ChessMove) -> bool {
    |mv: ChessMove| mv.move_type == MoveType::Normal && m.at(mv.to.0 as int, mv.to.1 as int) != Piece::Empty
}

/// The move leaves the opponent in check, with or without a reply.
pub open spec fn gives_check(m: BoardModel, mated: bool) -> spec_fn(ChessMove) -> bool {
    |mv: ChessMove| {
        let n = m.after_move(mv.from, mv.to, mv.move_type);
        n.in_check(n.turn) && (n.legal_moves().len() == 0) == mated
    }
}

proof fn lemma_perft_moves_one(m: BoardModel, s: Seq<ChessMove>)
    ensures
        perft_moves(m, s, 1).nodes == s.len(),
        perft_moves(m, s, 1).captures == count_moves(s, is_capture(m)),
        perft_moves(m, s, 1).en_passants == count_moves(s, |mv: ChessMove| mv.move_type is EnPassant),
        perft_moves(m, s, 1).castles == count_moves(s, |mv: ChessMove| mv.move_type is Castling),
        perft_moves(m, s, 1).promotions == count_moves(s, |mv: ChessMove| mv.move_type is Promotion),
        perft_moves(m, s, 1).checks == count_moves(s, gives_check(m, false)),
        perft_moves(m, s, 1).checkmates == count_moves(s, gives_check(m, true)),
    decreases s.len(),
{
    if s.len() > 0 {
        lemma_perft_moves_one(m, s.drop_last());
        let mv = s.last();
        let n = m.after_move(mv.from, mv.to, mv.move_type);
        assert(((1 - 1) as nat) == 0nat);
        assert(perft_spec(n, 0) == PerftCounts { nodes: 1, ..zero_counts() });
        assert(move_counts(m, mv, 1) == add_counts(kind_counts(m, mv), add_counts(check_counts(n), perft_spec(n, 0))));
        assert(perft_moves(m, s, 1) == add_counts(perft_moves(m, s.drop_last(), 1), move_counts(m, mv, 1)));
        assert(kind_counts(m, mv).nodes == 0);
        assert(check_counts(n).nodes == 0 && check_counts(n).captures == 0);
        assert(kind_counts(m, mv).captures == if is_capture(m)(mv) { 1int } else { 0int });
    }
}

/// Perft to depth one tallies the legal moves by kind: each counts one node; a
/// capture is a normal move onto an occupied square; en passant, castling and
/// promotion moves count under their kind; a move counts as a check when it
/// leaves the opponent in check with a reply, and as a mate when without one.
pub proof fn lemma_perft_depth_one(m: BoardModel)
    ensures
        perft_spec(m, 1).nodes == m.legal_moves().len(),
        perft_spec(m, 1).captures == count_moves(m.legal_moves(), is_capture(m)),
        perft_spec(m, 1).en_passants == count_moves(m.legal_moves(), |mv: ChessMove| mv.move_type is EnPassant),
        perft_spec(m, 1).castles == count_moves(m.legal_moves(), |mv: ChessMove| mv.move_type is Castling),
        perft_spec(m, 1).promotions == count_moves(m.legal_moves(), |mv: ChessMove| mv.move_type is Promotion),
        perft_spec(m, 1).checks == count_moves(m.legal_moves(), gives_check(m, false)),
        perft_spec(m, 1).checkmates == count_moves(m.legal_moves(), gives_check(m, true)),
{
    lemma_perft_moves_one(m, m.legal_moves());
}

/// A position none of whose legal moves is a capture has no captures at depth one.
pub proof fn lemma_no_capture_no_tally(m: BoardModel)
    requires
        forall|i: int| 0 <= i < m.legal_moves().len()
            ==> m.at(#[trigger] m.legal_moves()[i].to.0 as int, m.legal_moves()[i].to.1 as int) == Piece::Empty,
    ensures
        perft_spec(m, 1).captures == 0,
{
    lemma_perft_depth_one(m);
    lemma_count_none(m.legal_moves(), is_capture(m), m);
}

proof fn lemma_count_none(s: Seq<ChessMove>, p: spec_fn(ChessMove) -> bool, m: BoardModel)
    requires
        p == is_capture(m),
        forall|i: int| 0 <= i < s.len() ==> m.at(#[trigger] s[i].to.0 as int, s[i].to.1 as int) == Piece::Empty,
    ensures
        count_moves(s, p) == 0,
    decreases s.len(),
{
    if s.len() > 0 {
        assert(m.at(s[s.len() - 1].to.0 as int, s[s.len() - 1].to.1 as int) == Piece::Empty);
        lemma_count_none(s.drop_last(), p, m);
    }
}

/// The tallies of perft to `depth` below each move of the list, added up.
pub open spec fn child_counts(m: BoardModel, s: Seq<ChessMove>, depth: nat) -> PerftCounts
    decreases s.len(),
{
    if s.len() == 0 {
        zero_counts()
    } else {
        add_counts(child_counts(m, s.drop_last(), depth),
            perft_spec(m.after_move(s.last().from, s.last().to, s.last().move_type), depth))
    }
}

proof fn lemma_perft_moves_split(m: BoardModel, s: Seq<ChessMove>, depth: nat)
    ensures
        ({
            let deep = perft_moves(m, s, depth + 1);
            let one = perft_moves(m, s, 1);
            let below = child_counts(m, s, depth);
            &&& deep.nodes == below.nodes
            &&& deep.captures == one.captures + below.captures
            &&& deep.en_passants == one.en_passants + below.en_passants
            &&& deep.castles == one.castles + below.castles
            &&& deep.promotions == one.promotions + below.promotions
            &&& deep.checks == one.checks + below.checks
            &&& deep.checkmates == one.checkmates + below.checkmates
        }),
    decreases s.len(),
{
    if s.len() > 0 {
        lemma_perft_moves_split(m, s.drop_last(), depth);
        let mv = s.last();
        let n = m.after_move(mv.from, mv.to, mv.move_type);
        assert(((depth + 1) - 1) as nat == depth);
        assert(((1 - 1) as nat) == 0nat);
        assert(perft_spec(n, 0) == PerftCounts { nodes: 1, ..zero_counts() });
        assert(move_counts(m, mv, depth + 1) == add_counts(kind_counts(m, mv), add_counts(check_counts(n), perft_spec(n, depth))));
        assert(move_counts(m, mv, 1) == add_counts(kind_counts(m, mv), add_counts(check_counts(n), perft_spec(n, 0))));
        assert(kind_counts(m, mv).nodes == 0 && check_counts(n).nodes == 0);
    }
}

/// Perft one level deeper adds the tallies of every legal move's own position to
/// the tallies of the moves themselves: the nodes are those below the moves, and
/// each kind (captures, en passant, castling, promotions, checks, mates) is the
/// count at depth one plus the counts below every legal move.
pub proof fn lemma_perft_deeper(m: BoardModel, depth: nat)
    ensures
        ({
            let deep = perft_spec(m, depth + 1);
            let one = perft_spec(m, 1);
            let below = child_counts(m, m.legal_moves(), depth);
            &&& deep.nodes == below.nodes
            &&& deep.captures == one.captures + below.captures
            &&& deep.en_passants == one.en_passants + below.en_passants
            &&& deep.castles == one.castles + below.castles
            &&& deep.promotions == one.promotions + below.promotions
            &&& deep.checks == one.checks + below.checks
            &&& deep.checkmates == one.checkmates + below.checkmates
        }),
{
    lemma_perft_moves_split(m, m.legal_moves(), depth);
}

proof fn lemma_perft_nonneg(m: BoardModel, depth: nat)
    ensures
        nonneg(perft_spec(m, depth)),
    decreases depth, 1int, 0int,
{
    if depth > 0 {
        lemma_perft_moves_nonneg(m, m.legal_moves(), depth);
    }
}

proof fn lemma_perft_moves_nonneg(m: BoardModel, s: Seq<ChessMove>, depth: nat)
    ensures
        nonneg(perft_moves(m, s, depth)),
    decreases depth, 0int, s.len(),
{
    if s.len() > 0 && depth > 0 {
        lemma_perft_moves_nonneg(m, s.drop_last(), depth);
        lemma_move_counts_nonneg(m, s.last(), depth);
    }
}

proof fn lemma_move_counts_nonneg(m: BoardModel, mv: ChessMove, depth: nat)
    ensures
        nonneg(move_counts(m, mv, depth)),
    decreases depth, 0int, 0int,
{
    if depth > 0 {
        lemma_perft_nonneg(m.after_move(mv.from, mv.to, mv.move_type), (depth - 1) as nat);
    }
}

#[derive(Debug, Clone)]
pub struct PerftResult {
    pub nodes: u64,
    pub captures: u64,
    pub en_passants: u64,
    pub castles: u64,
    pub promotions: u64,
    pub checks: u64,
    pub checkmates: u64,
}

impl View for PerftResult {
    type V = PerftCounts;

    open spec fn view(&self) -> PerftCounts {
        PerftCounts {
            nodes: self.nodes as int,
            captures: self.captures as int,
            en_passants: self.en_passants as int,
            castles: self.castles as int,
            promotions: self.promotions as int,
            checks: self.checks as int,
            checkmates: self.checkmates as int,
        }
    }
}

impl PerftResult {
    pub fn new() -> (r: Self)
        ensures
            r@ == zero_counts(),
    {
        PerftResult { nodes: 0, captures: 0, en_passants: 0, castles: 0, promotions: 0, checks: 0, checkmates: 0 }
    }

    pub fn add(&mut self, other: &PerftResult)
        requires
            fits(add_counts(old(self)@, other@)),
        ensures
            final(self)@ == add_counts(old(self)@, other@),
    {
        self.nodes = self.nodes + other.nodes;
        self.captures = self.captures + other.captures;
        self.en_passants = self.en_passants + other.en_passants;
        self.castles = self.castles + other.castles;
        self.promotions = self.promotions + other.promotions;
        self.checks = self.checks + other.checks;
        self.checkmates = self.checkmates + other.checkmates;
    }
}

/// The counters leave room for `depth` more moves.
pub open spec fn room_for(m: BoardModel, depth: nat) -> bool {
    m.halfmove + depth < u32::MAX && m.fullmove + depth < u32::MAX
}

/// The counts of a move: its own kind, then the check and the counts below the
/// position it leads to, when it can be played.
proof fn lemma_move_counts_split(m: BoardModel, mv: ChessMove, depth: nat)
    requires
        0 < depth,
    ensures
        nonneg(move_counts(m, mv, depth)),
        ({
            let n = m.after_move(mv.from, mv.to, mv.move_type);
            &&& move_counts(m, mv, depth) == add_counts(kind_counts(m, mv),
                add_counts(check_counts(n), perft_spec(n, (depth - 1) as nat)))
            &&& nonneg(perft_spec(n, (depth - 1) as nat))
            &&& nonneg(check_counts(n))
        }),
        nonneg(kind_counts(m, mv)),
{
    lemma_move_counts_nonneg(m, mv, depth);
    lemma_perft_nonneg(m.after_move(mv.from, mv.to, mv.move_type), (depth - 1) as nat);
}

impl Board {
    /// Perft (performance test): counts the leaf nodes at a given depth, with the kinds of
    /// moves on the way, to validate move generation.
    pub fn perft(&self, depth: u32) -> (r: PerftResult)
        requires
            room_for(self@, depth as nat),
            fits(perft_spec(self@, depth as nat)),
        ensures
            r@ == perft_spec(self@, depth as nat),
    {
        let mut result = PerftResult::new();
        proof {
            assert(add_counts(result@, perft_spec(self@, depth as nat)) =~= perft_spec(self@, depth as nat));
        }
        self.perft_internal(depth, &mut result);
        assert(result@ =~= perft_spec(self@, depth as nat));
        result
    }

    /// Counts one legal move and explores the position it leads to.
    #[verifier::rlimit(100)]
    #[verifier::spinoff_prover]
    fn perft_move(&self, mv: ChessMove, depth: u32, result: &mut PerftResult)
        requires
            0 < depth,
            room_for(self@, depth as nat),
            self@.sane_move(mv),
            nonneg(old(result)@),
            fits(add_counts(old(result)@, move_counts(self@, mv, depth as nat))),
        ensures
            final(result)@ == add_counts(old(result)@, move_counts(self@, mv, depth as nat)),
        decreases depth, 0int,
    {
        let ghost m = self@;
        proof {
            lemma_move_counts_split(m, mv, depth as nat);
        }
        let ghost before = result@;
        match mv.move_type {
            MoveType::Castling => result.castles = result.castles + 1,
            MoveType::EnPassant => result.en_passants = result.en_passants + 1,
            MoveType::Promotion(_) => result.promotions = result.promotions + 1,
            MoveType::Normal => {
                if self.squares[mv.to.0][mv.to.1] != Piece::Empty {
                    result.captures = result.captures + 1;
                }
            },
        }
        assert(result@ =~= add_counts(before, kind_counts(m, mv)));
        let mut next_board = *self;
        let _ = next_board.execute_move(mv.from, mv.to, mv.move_type);
        let ghost n = next_board@;
        assert(n == m.after_move(mv.from, mv.to, mv.move_type));
        proof {
            lemma_perft_nonneg(n, (depth - 1) as nat);
        }
        let is_in_check = next_board.is_in_check(next_board.turn);
        let ghost before_check = result@;
        if is_in_check {
            let legal_moves = next_board.generate_moves();
            if legal_moves.len() == 0 {
                result.checkmates = result.checkmates + 1;
            } else {
                result.checks = result.checks + 1;
            }
        }
        assert(result@ =~= add_counts(before_check, check_counts(n)));
        next_board.perft_internal(depth - 1, result);
        assert(result@ =~= add_counts(before, move_counts(m, mv, depth as nat)));
    }

    #[verifier::rlimit(40)]
    fn perft_internal(&self, depth: u32, result: &mut PerftResult)
        requires
            room_for(self@, depth as nat),
            fits(add_counts(old(result)@, perft_spec(self@, depth as nat))),
            nonneg(old(result)@),
        ensures
            final(result)@ == add_counts(old(result)@, perft_spec(self@, depth as nat)),
        decreases depth, 1int,
    {
        proof {
            lemma_perft_nonneg(self@, depth as nat);
        }
        if depth == 0 {
            result.nodes = result.nodes + 1;
            assert(result@ =~= add_counts(old(result)@, perft_spec(self@, depth as nat)));
            return;
        }
        let moves = self.generate_moves();
        let ghost start = result@;
        let ghost total = add_counts(start, perft_spec(self@, depth as nat));
        let mut i: usize = 0;
        while i < moves.len()
            invariant
                0 < depth,
                i <= moves@.len(),
                room_for(self@, depth as nat),
                moves@ == self@.legal_moves(),
                self@.all_sane(moves@, 0),
                total == add_counts(start, perft_spec(self@, depth as nat)),
                perft_spec(self@, depth as nat) == perft_moves(self@, moves@, depth as nat),
                fits(total),
                nonneg(start),
                result@ == add_counts(start, perft_moves(self@, moves@.take(i as int), depth as nat)),
            decreases moves@.len() - i,
        {
            let mv = moves[i];
            let ghost m = self@;
            proof {
                assert(moves@.take(i + 1).drop_last() =~= moves@.take(i as int));
                assert(moves@.take(i + 1).last() == mv);
                assert(m.sane_move(moves@[i as int]));
                lemma_perft_moves_prefix_le(m, moves@, i as int + 1, depth as nat);
                lemma_perft_moves_nonneg(m, moves@.take(i as int), depth as nat);
                lemma_move_counts_nonneg(m, mv, depth as nat);
                assert(perft_moves(m, moves@.take(i + 1), depth as nat)
                    == add_counts(perft_moves(m, moves@.take(i as int), depth as nat), move_counts(m, mv, depth as nat)));
            }
            self.perft_move(mv, depth, result);
            i = i + 1;
            assert(result@ =~= add_counts(start, perft_moves(m, moves@.take(i as int), depth as nat)));
        }
        assert(moves@.take(moves@.len() as int) =~= moves@);
    }
}

/// The tallies of a prefix of the move list are at most those of the whole list.
proof fn lemma_perft_moves_prefix_le(m: BoardModel, s: Seq<ChessMove>, i: int, depth: nat)
    requires
        0 <= i <= s.len(),
    ensures
        le_counts(perft_moves(m, s.take(i), depth), perft_moves(m, s, depth)),
    decreases s.len() - i,
{
    if i < s.len() {
        lemma_perft_moves_prefix_le(m, s, i + 1, depth);
        assert(s.take(i + 1).drop_last() =~= s.take(i));
        if depth > 0 {
            lemma_move_counts_nonneg(m, s.take(i + 1).last(), depth);
        }
    } else {
        assert(s.take(i) =~= s);
    }
}


/// The entries of perft divide for a list of moves: for each move, its coordinate
/// text and the leaf count one level less deep below the position it leads to.
pub open spec fn divide_entries(m: BoardModel, s: Seq<ChessMove>, depth: nat) -> Seq<(Seq<char>, int)>
    decreases s.len(),
{
    if s.len() == 0 {
        Seq::empty()
    } else {
        let mv = s.last();
        divide_entries(m, s.drop_last(), depth).push((square_text(mv.from) + square_text(mv.to),
            perft_spec(m.after_move(mv.from, mv.to, mv.move_type), (depth - 1) as nat).nodes))
    }
}

/// The sum of the leaf counts of divide entries.
pub open spec fn divide_total(entries: Seq<(Seq<char>, int)>) -> int
    decreases entries.len(),
{
    if entries.len() == 0 {
        0
    } else {
        divide_total(entries.drop_last()) + entries.last().1
    }
}

proof fn lemma_divide_moves_add_up(m: BoardModel, s: Seq<ChessMove>, depth: nat)
    requires
        depth >= 1,
    ensures
        perft_moves(m, s, depth).nodes == divide_total(divide_entries(m, s, depth)),
    decreases s.len(),
{
    if s.len() > 0 {
        lemma_divide_moves_add_up(m, s.drop_last(), depth);
        let mv = s.last();
        assert(perft_moves(m, s, depth) == add_counts(perft_moves(m, s.drop_last(), depth), move_counts(m, mv, depth)));
        assert(kind_counts(m, mv).nodes == 0);
        let n = m.after_move(mv.from, mv.to, mv.move_type);
        assert(check_counts(n).nodes == 0);
        let rest = divide_entries(m, s.drop_last(), depth);
        let e = (square_text(mv.from) + square_text(mv.to), perft_spec(n, (depth - 1) as nat).nodes);
        assert(divide_entries(m, s, depth) == rest.push(e));
        assert(rest.push(e).drop_last() =~= rest);
    }
}

/// The leaf counts that perft divide lists for the first moves add up to the
/// leaf count of perft at the same depth.
pub proof fn lemma_divide_adds_up(m: BoardModel, depth: nat)
    requires
        depth >= 1,
    ensures
        perft_spec(m, depth).nodes == divide_total(divide_entries(m, m.legal_moves(), depth)),
{
    lemma_divide_moves_add_up(m, m.legal_moves(), depth);
}

/// Every successor of a legal move leaves the leaf count of the move within the
/// bounds of the whole count.
pub open spec fn divide_fits(m: BoardModel, depth: nat) -> bool {
    forall|i: int| 0 <= i < m.legal_moves().len() ==> {
        let mv = #[trigger] m.legal_moves()[i];
        fits(perft_spec(m.after_move(mv.from, mv.to, mv.move_type), (depth - 1) as nat))
    }
}

/// Every key of the map is the name of one of the first `n` divide entries,
/// mapped to that entry's count, and every one of those names is a key.
pub open spec fn names_cover(m: Map<String, u64>, e: Seq<(Seq<char>, int)>, n: int) -> bool {
    &&& forall|k: String| #[trigger] m.contains_key(k) ==>
        exists|j: int| 0 <= j < n && (#[trigger] e[j]).0 == k@ && m[k] == e[j].1
    &&& forall|j: int| 0 <= j < n ==>
        exists|k: String| #[trigger] m.contains_key(k) && k@ == (#[trigger] e[j]).0
}

proof fn lemma_names_cover_insert(before: Map<String, u64>, k: String, v: u64, e: Seq<(Seq<char>, int)>, i: int)
    requires
        0 <= i < e.len(),
        k@ == e[i].0,
        v == e[i].1,
        names_cover(before, e, i),
    ensures
        names_cover(before.insert(k, v), e, i + 1),
{
    let after = before.insert(k, v);
    assert forall|kk: String| #[trigger] after.contains_key(kk) implies
        exists|j: int| 0 <= j < i + 1 && (#[trigger] e[j]).0 == kk@ && after[kk] == e[j].1 by {
        if kk == k {
            assert(e[i].0 == kk@ && after[kk] == e[i].1);
        } else {
            assert(before.contains_key(kk));
            let j = choose|j: int| 0 <= j < i && (#[trigger] e[j]).0 == kk@ && before[kk] == e[j].1;
            assert(e[j].0 == kk@ && after[kk] == e[j].1);
        }
    }
    assert forall|j: int| 0 <= j < i + 1 implies
        exists|kk: String| #[trigger] after.contains_key(kk) && kk@ == (#[trigger] e[j]).0 by {
        if j == i {
            assert(after.contains_key(k) && k@ == e[j].0);
        } else {
            let kk = choose|kk: String| #[trigger] before.contains_key(kk) && kk@ == e[j].0;
            assert(after.contains_key(kk) && kk@ == e[j].0);
        }
    }
}

impl Board {
    /// The first moves with the number of leaf nodes below each, in move generation order.
    pub fn perft_divide_list(&self, depth: u32) -> (r: Vec<(String, u64)>)
        requires
            depth >= 1,
            room_for(self@, depth as nat),
            divide_fits(self@, depth as nat),
        ensures
            r@.len() == divide_entries(self@, self@.legal_moves(), depth as nat).len(),
            forall|i: int| 0 <= i < r@.len() ==> {
                let e = divide_entries(self@, self@.legal_moves(), depth as nat)[i];
                &&& (#[trigger] r@[i]).0@ == e.0
                &&& r@[i].1 == e.1
            },
    {
        let moves = self.generate_moves();
        let ghost m = self@;
        let mut out: Vec<(String, u64)> = Vec::new();
        let mut i: usize = 0;
        while i < moves.len()
            invariant
                depth >= 1,
                i <= moves@.len(),
                m == self@,
                room_for(m, depth as nat),
                divide_fits(m, depth as nat),
                moves@ == m.legal_moves(),
                m.all_sane(moves@, 0),
                out@.len() == divide_entries(m, moves@.take(i as int), depth as nat).len(),
                forall|k: int| 0 <= k < out@.len() ==> {
                    let e = divide_entries(m, moves@.take(i as int), depth as nat)[k];
                    &&& (#[trigger] out@[k]).0@ == e.0
                    &&& out@[k].1 == e.1
                },
            decreases moves@.len() - i,
        {
            let mv = moves[i];
            proof {
                assert(moves@.take(i + 1).drop_last() =~= moves@.take(i as int));
                assert(moves@.take(i + 1).last() == mv);
                assert(m.sane_move(moves@[i as int]));
            }
            let mut board = *self;
            let from = Self::square_to_string(mv.from);
            let to = Self::square_to_string(mv.to);
            proof {
                assert(from@ =~= square_text(mv.from));
                assert(to@ =~= square_text(mv.to));
            }
            let mut notation = from.clone();
            notation.append(to.as_str());
            let _ = board.execute_move(mv.from, mv.to, mv.move_type);
            let result = board.perft(depth - 1);
            out.push((notation, result.nodes));
            i = i + 1;
        }
        assert(moves@.take(moves@.len() as int) =~= moves@);
        out
    }

    /// Perft divide: the leaf count below each first move, keyed by its coordinate text.
    pub fn perft_divide(&self, depth: u32) -> (r: HashMap<String, u64>)
        requires
            depth >= 1,
            room_for(self@, depth as nat),
            divide_fits(self@, depth as nat),
        ensures
            obeys_key_model::<String>() ==> {
                let e = divide_entries(self@, self@.legal_moves(), depth as nat);
                names_cover(r@, e, e.len() as int)
            },
    {
        broadcast use vstd::std_specs::hash::group_hash_axioms;
        let entries = self.perft_divide_list(depth);
        let ghost e = divide_entries(self@, self@.legal_moves(), depth as nat);
        let mut moves_map: HashMap<String, u64> = HashMap::new();
        let mut i: usize = 0;
        proof {
            assert(names_cover(moves_map@, e, 0));
        }
        while i < entries.len()
            invariant
                i <= entries@.len(),
                entries@.len() == e.len(),
                forall|j: int| 0 <= j < entries@.len() ==> {
                    &&& (#[trigger] entries@[j]).0@ == e[j].0
                    &&& entries@[j].1 == e[j].1
                },
                obeys_key_model::<String>() ==> names_cover(moves_map@, e, i as int),
            decreases entries@.len() - i,
        {
            let k = entries[i].0.clone();
            let v = entries[i].1;
            let ghost before = moves_map@;
            moves_map.insert(k, v);
            proof {
                if obeys_key_model::<String>() {
                    assert(entries@[i as int].0@ == e[i as int].0);
                    lemma_names_cover_insert(before, k, v, e, i as int);
                }
            }
            i = i + 1;
        }
        moves_map
    }
}

} // verus!
