//! Static evaluation of positions: material, piece-square tables and the
//! positional terms, combined by the evaluator.

pub mod material;
pub mod piece_square;
pub mod advanced;

use vstd::prelude::*;
use crate::board::board::{Board, BoardModel, Color};
use crate::evaluation::material::{MaterialEvaluation, material_eval};
use crate::evaluation::piece_square::{PieceSquareEvaluation, pst_eval};
use crate::evaluation::advanced::{PieceMobility, KingSafety, PawnStructure};
use crate::evaluation::advanced::mobility::mobility_eval;
use crate::evaluation::advanced::king_safety::king_safety_eval;
use crate::evaluation::advanced::pawns::{pawn_eval, pawns_in_range};

verus! {

pub type Score = i32;

/// The sum of `val` over the first `n` squares in rank-major order.
pub open spec fn board_sum(m: BoardModel, n: int, val: spec_fn(Piece, int, int) -> int) -> int
    decreases n,
{
    if n <= 0 {
        0
    } else {
        board_sum(m, n - 1, val) + val(m.at((n - 1) / 8, (n - 1) % 8), (n - 1) / 8, (n - 1) % 8)
    }
}

/// A sum of `n` terms each between `lo` and `hi` lies between `n * lo` and `n * hi`.
pub proof fn lemma_board_sum_bounds(m: BoardModel, n: int, val: spec_fn(Piece, int, int) -> int, lo: int, hi: int)
    requires
        0 <= n,
        forall|p: Piece, r: int, f: int| lo <= #[trigger] val(p, r, f) <= hi,
    ensures
        n * lo <= board_sum(m, n, val) <= n * hi,
    decreases n,
{
    if n > 0 {
        lemma_board_sum_bounds(m, n - 1, val, lo, hi);
        let v = val(m.at((n - 1) / 8, (n - 1) % 8), (n - 1) / 8, (n - 1) % 8);
        assert(lo <= v <= hi);
        assert((n - 1) * lo + lo == n * lo) by (nonlinear_arith);
        assert((n - 1) * hi + hi == n * hi) by (nonlinear_arith);
    }
}

/// The score from the side to move's point of view, given white's advantage.
pub open spec fn perspective(m: BoardModel, white_minus_black: int) -> int {
    if m.turn == Color::White { white_minus_black } else { -white_minus_black }
}

/// Two boards with the same squares give the same sum of pointwise equal terms.
pub proof fn lemma_board_sum_ext(
    m1: BoardModel,
    m2: BoardModel,
    n: int,
    v1: spec_fn(Piece, int, int) -> int,
    v2: spec_fn(Piece, int, int) -> int,
)
    requires
        m1.grid == m2.grid,
        forall|p: Piece, r: int, f: int| #[trigger] v1(p, r, f) == v2(p, r, f),
    ensures
        board_sum(m1, n, v1) == board_sum(m2, n, v2),
    decreases n,
{
    if n > 0 {
        lemma_board_sum_ext(m1, m2, n - 1, v1, v2);
    }
}

/// White's advantage turned into the side to move's point of view.
pub fn side_to_move_perspective(board: &Board, white_minus_black: Score) -> (s: Score)
    requires
        white_minus_black > i32::MIN,
    ensures
        s == perspective(board@, white_minus_black as int),
{
    match board.turn {
        Color::White => white_minus_black,
        Color::Black => -white_minus_black,
    }
}

/// Integer division rounding toward zero, as machine division does.
pub open spec fn div_toward_zero(a: int, b: int) -> int {
    if a >= 0 { a / b } else { -((-a) / b) }
}

/// The hand-crafted evaluation: material, piece-square tables, mobility, king
/// safety and pawn structure, from the side to move's point of view.
pub open spec fn hand_crafted(m: BoardModel) -> int {
    material_eval(m) + pst_eval(m) + mobility_eval(m) + king_safety_eval(m) + pawn_eval(m)
}

/// The score the evaluator reports, given the hand-crafted score and the score of
/// the attached network: the network alone in network mode, 3:7 blended in
/// hybrid mode, and the hand-crafted score when no network is attached.
pub open spec fn combined_score(mode: EvaluationMode, has_network: bool, hc: int, nn: int) -> int {
    match mode {
        EvaluationMode::Handcrafted => hc,
        EvaluationMode::NNUE => if has_network { nn } else { hc },
        EvaluationMode::Hybrid => if has_network { div_toward_zero(hc * 3 + nn * 7, 10) } else { hc },
    }
}

/// The side to move is mated or stalemated: the loss score when in check, else a draw.
pub open spec fn terminal(m: BoardModel) -> int {
    if m.in_check(m.turn) { -100000 } else { 0 }
}

#[derive(Clone, Copy, Debug, PartialEq, Eq, Structural)]
pub enum EvaluationMode {
    Handcrafted,
    NNUE,
    Hybrid,
}

/// The evaluator without a network attached.
pub struct NoNetwork;

/// The position evaluator. The network, when one is attached, is held as an
/// opaque value; its score for a position is computed outside and handed in.
pub struct Evaluator<N> {
    pub nnue_network: Option<N>,
    pub mode: EvaluationMode,
}

/// Material, piece-square tables, mobility, king safety and pawn structure.
pub fn hand_crafted_score(board: &Board) -> (s: Score)
    requires
        pawns_in_range(board@),
    ensures
        s == hand_crafted(board@),
        -131310 <= s <= 131310,
{
    let material = MaterialEvaluation::evaluate(board);
    let piece_square = PieceSquareEvaluation::evaluate(board);
    let mobility = PieceMobility::evaluate(board);
    let king_safety = KingSafety::evaluate(board);
    let pawn_structure = PawnStructure::evaluate(board);
    material + piece_square + mobility + king_safety + pawn_structure
}

/// The score of a position without legal moves: mate when in check, else a draw.
pub fn terminal_value(board: &Board) -> (s: Score)
    ensures
        s == terminal(board@),
{
    if board.is_in_check(board.turn) {
        -100000
    } else {
        0
    }
}

impl Evaluator<NoNetwork> {
    pub fn new() -> (e: Self)
        ensures
            e.nnue_network is None,
            e.mode == EvaluationMode::Handcrafted,
    {
        Evaluator { nnue_network: None, mode: EvaluationMode::Handcrafted }
    }

    /// Material, piece-square tables, mobility, king safety and pawn structure.
    pub fn hand_crafted_evaluate(board: &Board) -> (s: Score)
        requires
            pawns_in_range(board@),
        ensures
            s == hand_crafted(board@),
            -131310 <= s <= 131310,
    {
        hand_crafted_score(board)
    }

    /// The score of a position without legal moves: mate when in check, else a draw.
    pub fn terminal_score(board: &Board) -> (s: Score)
        ensures
            s == terminal(board@),
    {
        terminal_value(board)
    }
}

impl<N> Evaluator<N> {
    pub fn with_nnue(network: N) -> (e: Self)
        ensures
            e.nnue_network == Some(network),
            e.mode == EvaluationMode::NNUE,
    {
        Evaluator { nnue_network: Some(network), mode: EvaluationMode::NNUE }
    }

    pub fn set_mode(&mut self, mode: EvaluationMode)
        ensures
            final(self).mode == mode,
            final(self).nnue_network == old(self).nnue_network,
    {
        self.mode = mode;
    }

    /// The evaluation when no network score is needed: without a network every
    /// mode falls back to the hand-crafted evaluation.
    pub fn evaluate(&self, board: &Board) -> (s: Score)
        requires
            self.nnue_network is None || self.mode == EvaluationMode::Handcrafted,
            pawns_in_range(board@),
        ensures
            s == combined_score(self.mode, self.nnue_network is Some, hand_crafted(board@), 0),
            s == hand_crafted(board@),
            -131310 <= s <= 131310,
    {
        hand_crafted_score(board)
    }

    /// The evaluation given the attached network's score for this position
    /// (from its accumulator or a full evaluation).
    pub fn evaluate_with_accumulator(&self, board: &Board, network_score: Score) -> (s: Score)
        requires
            pawns_in_range(board@),
            self.mode == EvaluationMode::Hybrid && self.nnue_network is Some
                ==> i32::MIN <= network_score * 7 <= i32::MAX
                && i32::MIN <= hand_crafted(board@) * 3 + network_score * 7 <= i32::MAX,
        ensures
            s == combined_score(self.mode, self.nnue_network is Some, hand_crafted(board@), network_score as int),
    {
        match self.mode {
            EvaluationMode::NNUE => {
                if self.nnue_network.is_some() {
                    network_score
                } else {
                    hand_crafted_score(board)
                }
            },
            EvaluationMode::Hybrid => {
                let hc_score = hand_crafted_score(board);
                if self.nnue_network.is_some() {
                    (hc_score * 3 + network_score * 7) / 10
                } else {
                    hc_score
                }
            },
            EvaluationMode::Handcrafted => hand_crafted_score(board),
        }
    }

    /// Switches to the network when one is attached.
    pub fn enable_nnue(&mut self)
        ensures
            final(self).nnue_network == old(self).nnue_network,
            final(self).mode == if old(self).nnue_network is Some { EvaluationMode::NNUE } else { old(self).mode },
    {
        if self.nnue_network.is_some() {
            self.mode = EvaluationMode::NNUE;
        }
    }

    pub fn disable_nnue(&mut self)
        ensures
            final(self).nnue_network == old(self).nnue_network,
            final(self).mode == EvaluationMode::Handcrafted,
    {
        self.mode = EvaluationMode::Handcrafted;
    }
}

} // verus!

use crate::board::pieces::Piece;
