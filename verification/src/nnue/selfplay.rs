use vstd::prelude::*;
use crate::board::board::{Board, BoardModel, Color};
use crate::board::chess_move::ChessMove;
use crate::evaluation::Score;

verus! {

/// Settings of self-play data generation.
#[derive(Debug, Clone)]
pub struct SelfPlayConfig {
    pub nodes_per_move: u64,
    pub random_opening_plies: usize,
    pub max_moves: usize,
}

impl Default for SelfPlayConfig {
    fn default() -> (c: Self)
        ensures
            c.nodes_per_move == 10_000,
            c.random_opening_plies == 6,
            c.max_moves == 120,
    {
        SelfPlayConfig { nodes_per_move: 10_000, random_opening_plies: 6, max_moves: 120 }
    }
}

pub struct SelfPlayGenerator {
    pub config: SelfPlayConfig,
}

impl SelfPlayGenerator {
    pub fn new(config: SelfPlayConfig) -> (g: Self)
        ensures
            g.config == config,
    {
        SelfPlayGenerator { config }
    }
}

/// Plays matches between two engines at a fixed node count per move.
pub struct MatchRunner {
    pub nodes_per_move: u64,
    pub max_moves: usize,
}

impl MatchRunner {
    pub fn new(nodes_per_move: u64) -> (r: Self)
        ensures
            r.nodes_per_move == nodes_per_move,
            r.max_moves == 120,
    {
        MatchRunner { nodes_per_move, max_moves: 120 }
    }
}

/// How a game ended.
#[derive(Debug, Clone, Copy, PartialEq, Eq, Structural)]
pub enum GameOutcome {
    WhiteWins,
    BlackWins,
    Draw,
}

/// The outcome of a game that is over at this position: the side to move is
/// mated, or the game is drawn by stalemate or by the fifty-move rule.
pub open spec fn outcome_at(m: crate::board::board::BoardModel) -> Option<GameOutcome> {
    if m.legal_moves().len() == 0 {
        if m.in_check(m.turn) {
            Some(if m.turn == Color::White { GameOutcome::BlackWins } else { GameOutcome::WhiteWins })
        } else {
            Some(GameOutcome::Draw)
        }
    } else if m.halfmove >= 100 {
        Some(GameOutcome::Draw)
    } else {
        None
    }
}

/// Whether a game is over at this position, and how it ended.
pub fn game_over(board: &Board) -> (r: Option<GameOutcome>)
    requires
        board@.counters_ok(),
    ensures
        r == outcome_at(board@),
{
    let moves = board.generate_moves();
    if moves.len() == 0 {
        if board.is_in_check(board.turn) {
            return Some(if board.turn == Color::White { GameOutcome::BlackWins } else { GameOutcome::WhiteWins });
        }
        return Some(GameOutcome::Draw);
    }
    if board.halfmove_clock >= 100 {
        return Some(GameOutcome::Draw);
    }
    None
}

/// The verdict of adjudication: beyond the threshold in either direction the
/// game is decided for the side the score of the side to move favours.
pub open spec fn adjudication(turn: Color, score: int, threshold: int) -> Option<GameOutcome> {
    if score > threshold || score < -threshold {
        if (turn == Color::White && score > threshold) || (turn == Color::Black && score < -threshold) {
            Some(GameOutcome::WhiteWins)
        } else {
            Some(GameOutcome::BlackWins)
        }
    } else {
        None
    }
}

/// Adjudicates a game by the search score of the side to move.
pub fn adjudicate(turn: Color, score: Score, threshold: Score) -> (r: Option<GameOutcome>)
    requires
        threshold >= 0,
    ensures
        r == adjudication(turn, score as int, threshold as int),
{
    if score > threshold || score < -threshold {
        let white_winning = (turn == Color::White && score > threshold) || (turn == Color::Black && score < -threshold);
        Some(if white_winning { GameOutcome::WhiteWins } else { GameOutcome::BlackWins })
    } else {
        None
    }
}

/// The running result of a match: wins of each engine and draws.
#[derive(Debug, Clone, Copy, PartialEq, Eq, Structural)]
pub struct MatchTally {
    pub a_wins: usize,
    pub b_wins: usize,
    pub draws: usize,
}

/// The tally after one more game: a draw, or a win for the engine that had the
/// winning colour.
pub open spec fn recorded(t: MatchTally, outcome: GameOutcome, a_is_white: bool) -> MatchTally {
    match outcome {
        GameOutcome::Draw => MatchTally { draws: (t.draws + 1) as usize, ..t },
        GameOutcome::WhiteWins => if a_is_white {
            MatchTally { a_wins: (t.a_wins + 1) as usize, ..t }
        } else {
            MatchTally { b_wins: (t.b_wins + 1) as usize, ..t }
        },
        GameOutcome::BlackWins => if a_is_white {
            MatchTally { b_wins: (t.b_wins + 1) as usize, ..t }
        } else {
            MatchTally { a_wins: (t.a_wins + 1) as usize, ..t }
        },
    }
}

impl MatchTally {
    pub fn new() -> (t: Self)
        ensures
            t.a_wins == 0 && t.b_wins == 0 && t.draws == 0,
    {
        MatchTally { a_wins: 0, b_wins: 0, draws: 0 }
    }

    /// Counts a finished game: a draw, or a win for the engine that had the
    /// winning colour (engine A plays white when `a_is_white`).
    pub fn record(&mut self, outcome: GameOutcome, a_is_white: bool)
        requires
            old(self).a_wins + old(self).b_wins + old(self).draws < usize::MAX,
        ensures
            *final(self) == recorded(*old(self), outcome, a_is_white),
    {
        match outcome {
            GameOutcome::Draw => {
                self.draws = self.draws + 1;
            },
            GameOutcome::WhiteWins => {
                if a_is_white {
                    self.a_wins = self.a_wins + 1;
                } else {
                    self.b_wins = self.b_wins + 1;
                }
            },
            GameOutcome::BlackWins => {
                if a_is_white {
                    self.b_wins = self.b_wins + 1;
                } else {
                    self.a_wins = self.a_wins + 1;
                }
            },
        }
    }

    /// Games counted so far.
    pub fn total(&self) -> (n: usize)
        requires
            self.a_wins + self.b_wins + self.draws <= usize::MAX,
        ensures
            n == self.a_wins + self.b_wins + self.draws,
    {
        self.a_wins + self.b_wins + self.draws
    }
}

/// What a game does at a ply: it stops unscored once a counter is full, it
/// finishes when the position ends the game, and otherwise its move is picked
/// at random during the opening plies and searched after them.
#[derive(Debug, Clone, Copy, PartialEq, Eq, Structural)]
pub enum GameAction {
    Stop,
    Finish(GameOutcome),
    PickRandom,
    Search,
}

pub open spec fn next_action(m: BoardModel, ply: int, random_plies: int) -> GameAction {
    if !m.counters_ok() {
        GameAction::Stop
    } else {
        match outcome_at(m) {
            Some(o) => GameAction::Finish(o),
            None => if ply < random_plies { GameAction::PickRandom } else { GameAction::Search },
        }
    }
}

/// The next step of a game at a ply (see `next_action`).
pub fn game_action(board: &Board, ply: usize, random_plies: usize) -> (a: GameAction)
    ensures
        a == next_action(board@, ply as int, random_plies as int),
{
    if board.halfmove_clock >= u32::MAX || board.fullmove_number >= u32::MAX {
        return GameAction::Stop;
    }
    match game_over(board) {
        Some(o) => GameAction::Finish(o),
        None => if ply < random_plies { GameAction::PickRandom } else { GameAction::Search },
    }
}

/// The legal move at a random index, taken modulo the number of legal moves;
/// none when there is no legal move.
pub fn random_pick(board: &Board, index: usize) -> (r: Option<ChessMove>)
    requires
        board@.counters_ok(),
    ensures
        board@.legal_moves().len() == 0 ==> r is None,
        board@.legal_moves().len() > 0 ==> r == Some(board@.legal_moves()[(index as int) % (board@.legal_moves().len() as int)]),
{
    let moves = board.generate_moves();
    if moves.len() == 0 {
        None
    } else {
        Some(moves[index % moves.len()])
    }
}

/// What a game does with a search result.
#[derive(Debug, Clone, Copy)]
pub enum SearchVerdict {
    Finish(GameOutcome),
    Play(ChessMove),
    Stop,
}

/// The search result decides the game when its score is past the threshold;
/// otherwise the searched move is played, or the first legal move when the
/// search found none, and the game stops when there is no move at all.
pub open spec fn verdict_of(m: BoardModel, best: Option<ChessMove>, score: int, threshold: int) -> SearchVerdict {
    match adjudication(m.turn, score, threshold) {
        Some(o) => SearchVerdict::Finish(o),
        None => match best {
            Some(mv) => SearchVerdict::Play(mv),
            None => if m.legal_moves().len() > 0 { SearchVerdict::Play(m.legal_moves()[0]) } else { SearchVerdict::Stop },
        },
    }
}

/// The step of a game after its search (see `verdict_of`).
pub fn search_verdict(board: &Board, best: Option<ChessMove>, score: Score, threshold: Score) -> (v: SearchVerdict)
    requires
        board@.counters_ok(),
        threshold >= 0,
    ensures
        v == verdict_of(board@, best, score as int, threshold as int),
{
    match adjudicate(board.turn, score, threshold) {
        Some(o) => SearchVerdict::Finish(o),
        None => match best {
            Some(mv) => SearchVerdict::Play(mv),
            None => {
                let moves = board.generate_moves();
                if moves.len() > 0 { SearchVerdict::Play(moves[0]) } else { SearchVerdict::Stop }
            },
        },
    }
}

} // verus!
