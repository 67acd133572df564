use vstd::prelude::*;
use crate::board::board::{Board, BoardModel, Color, on_board, opposite};
use crate::board::pieces::Piece;
use crate::evaluation::{Score, perspective, side_to_move_perspective};
use crate::evaluation::advanced::king_safety::{KingSafety, pawn_of, file_has};

verus! {

/// A side's rook.
pub open spec fn rook_of(c: Color) -> Piece {
    match c {
        Color::White => Piece::WhiteRook,
        Color::Black => Piece::BlackRook,
    }
}

/// The squares among the first `n` (in rank-major order) that hold `p`.
pub open spec fn squares_with(m: BoardModel, p: Piece, n: int) -> Seq<(usize, usize)>
    decreases n,
{
    if n <= 0 {
        Seq::empty()
    } else {
        let prev = squares_with(m, p, n - 1);
        if m.at((n - 1) / 8, (n - 1) % 8) == p {
            prev.push((((n - 1) / 8) as usize, ((n - 1) % 8) as usize))
        } else {
            prev
        }
    }
}

/// The bonus of one rook: 30 on a file without pawns, 16 on a file without own
/// pawns, 35 on the seventh rank and 12 on the back rank (from its side's view).
pub open spec fn rook_term(m: BoardModel, color: Color, sq: (usize, usize)) -> int {
    let own = file_has(m, sq.1 as int, pawn_of(color));
    let any = own || file_has(m, sq.1 as int, pawn_of(opposite(color)));
    let file_bonus: int = if !any { 30 } else if !own { 16 } else { 0 };
    let rank_bonus: int = if color == Color::White {
        if sq.0 == 1 { 35 } else if sq.0 == 0 { 12 } else { 0 }
    } else {
        if sq.0 == 6 { 35 } else if sq.0 == 7 { 12 } else { 0 }
    };
    file_bonus + rank_bonus
}

pub open spec fn rooks_sum(m: BoardModel, color: Color, s: Seq<(usize, usize)>, n: int) -> int
    decreases n,
{
    if n <= 0 { 0 } else { rooks_sum(m, color, s, n - 1) + rook_term(m, color, s[n - 1]) }
}

/// Two rooks see each other: they share a rank or file with only empty squares between.
pub open spec fn connected(m: BoardModel, a: (usize, usize), b: (usize, usize)) -> bool {
    (a.0 == b.0 || a.1 == b.1) && m.clear_path(a.0 as int, a.1 as int, b.0 as int, b.1 as int)
}

/// The number of rooks among the first `n` of `s` connected to `s[j]`.
pub open spec fn links_to(m: BoardModel, s: Seq<(usize, usize)>, j: int, n: int) -> int
    decreases n,
{
    if n <= 0 { 0 } else { links_to(m, s, j, n - 1) + if connected(m, s[n - 1], s[j]) { 1int } else { 0int } }
}

/// The number of connected pairs among the first `n` rooks of `s`.
pub open spec fn links(m: BoardModel, s: Seq<(usize, usize)>, n: int) -> int
    decreases n,
{
    if n <= 0 { 0 } else { links(m, s, n - 1) + links_to(m, s, n - 1, n - 1) }
}

/// A side's rook activity: the bonus of each rook plus 12 for each connected pair.
pub open spec fn rook_score(m: BoardModel, color: Color) -> int {
    let s = squares_with(m, rook_of(color), 64);
    rooks_sum(m, color, s, s.len() as int) + 12 * links(m, s, s.len() as int)
}

/// White's rook activity less black's, from the side to move's point of view.
pub open spec fn rook_eval(m: BoardModel) -> int {
    perspective(m, rook_score(m, Color::White) - rook_score(m, Color::Black))
}

proof fn lemma_squares_with(m: BoardModel, p: Piece, n: int)
    requires
        0 <= n <= 64,
    ensures
        squares_with(m, p, n).len() <= n,
        forall|i: int| 0 <= i < squares_with(m, p, n).len()
            ==> on_board(#[trigger] squares_with(m, p, n)[i].0 as int, squares_with(m, p, n)[i].1 as int),
    decreases n,
{
    if n > 0 {
        lemma_squares_with(m, p, n - 1);
    }
}

proof fn lemma_rooks_sum_bounds(m: BoardModel, color: Color, s: Seq<(usize, usize)>, n: int)
    requires
        0 <= n,
    ensures
        0 <= rooks_sum(m, color, s, n) <= 65 * n,
    decreases n,
{
    if n > 0 {
        lemma_rooks_sum_bounds(m, color, s, n - 1);
    }
}

proof fn lemma_links_bounds(m: BoardModel, s: Seq<(usize, usize)>, j: int, n: int)
    requires
        0 <= n,
    ensures
        0 <= links_to(m, s, j, n) <= n,
        0 <= links(m, s, n) <= n * n,
    decreases n,
{
    if n > 0 {
        lemma_links_bounds(m, s, j, n - 1);
        lemma_links_bounds(m, s, n - 1, n - 1);
        assert((n - 1) * (n - 1) + (n - 1) <= n * n) by (nonlinear_arith)
            requires n >= 1;
    }
}

pub struct RookActivity;

impl RookActivity {
    /// White's rook activity less black's, from the side to move's point of view.
    pub fn evaluate(board: &Board) -> (s: Score)
        ensures
            s == rook_eval(board@),
    {
        let white = Self::rook_score(board, Color::White);
        let black = Self::rook_score(board, Color::Black);
        side_to_move_perspective(board, white - black)
    }

    fn rook_squares(board: &Board, rook: Piece) -> (v: Vec<(usize, usize)>)
        ensures
            v@ == squares_with(board@, rook, 64),
            v@.len() <= 64,
            forall|i: int| 0 <= i < v@.len() ==> on_board(#[trigger] v@[i].0 as int, v@[i].1 as int),
    {
        let mut rooks: Vec<(usize, usize)> = Vec::new();
        let mut i: usize = 0;
        while i < 64
            invariant
                i <= 64,
                rooks@ == squares_with(board@, rook, i as int),
            decreases 64 - i,
        {
            let rank = i / 8;
            let file = i % 8;
            if board.squares[rank][file] == rook {
                rooks.push((rank, file));
            }
            i = i + 1;
        }
        proof {
            lemma_squares_with(board@, rook, 64);
        }
        rooks
    }

    /// A side's rook activity.
    fn rook_score(board: &Board, color: Color) -> (s: Score)
        ensures
            s == rook_score(board@, color),
            0 <= s <= 65 * 64 + 12 * 64 * 64,
    {
        let ghost m = board@;
        let rook = match color {
            Color::White => Piece::WhiteRook,
            Color::Black => Piece::BlackRook,
        };
        let rooks = Self::rook_squares(board, rook);
        let ghost s = rooks@;
        let mut score: i32 = 0;
        let mut k: usize = 0;
        while k < rooks.len()
            invariant
                k <= s.len() <= 64,
                s == rooks@,
                m == board@,
                forall|i: int| 0 <= i < s.len() ==> on_board(#[trigger] s[i].0 as int, s[i].1 as int),
                score == rooks_sum(m, color, s, k as int),
            decreases s.len() - k,
        {
            proof {
                lemma_rooks_sum_bounds(m, color, s, k as int);
            }
            let (r, f) = rooks[k];
            let (own_pawns, any_pawns) = Self::file_pawns(board, f, color);
            if !any_pawns {
                score = score + 30;
            } else if !own_pawns {
                score = score + 16;
            }
            match color {
                Color::White => {
                    if r == 1 {
                        score = score + 35;
                    } else if r == 0 {
                        score = score + 12;
                    }
                },
                Color::Black => {
                    if r == 6 {
                        score = score + 35;
                    } else if r == 7 {
                        score = score + 12;
                    }
                },
            }
            k = k + 1;
        }
        proof {
            lemma_rooks_sum_bounds(m, color, s, s.len() as int);
        }
        let mut pairs: i32 = 0;
        let mut j: usize = 0;
        while j < rooks.len()
            invariant
                j <= s.len() <= 64,
                s == rooks@,
                m == board@,
                forall|i: int| 0 <= i < s.len() ==> on_board(#[trigger] s[i].0 as int, s[i].1 as int),
                pairs == links(m, s, j as int),
            decreases s.len() - j,
        {
            proof {
                lemma_links_bounds(m, s, j as int, j as int);
            }
            let mut i: usize = 0;
            let ghost base = pairs as int;
            while i < j
                invariant
                    i <= j < s.len() <= 64,
                    s == rooks@,
                    m == board@,
                    forall|x: int| 0 <= x < s.len() ==> on_board(#[trigger] s[x].0 as int, s[x].1 as int),
                    0 <= base <= j * j,
                    pairs == base + links_to(m, s, j as int, i as int),
                decreases j - i,
            {
                proof {
                    lemma_links_bounds(m, s, j as int, i as int);
                    assert(j * j <= 64 * 64) by (nonlinear_arith) requires j <= 64;
                }
                if Self::clear_path(board, rooks[i], rooks[j]) {
                    pairs = pairs + 1;
                }
                i = i + 1;
            }
            j = j + 1;
        }
        proof {
            lemma_links_bounds(m, s, 0, s.len() as int);
            assert(s.len() * s.len() <= 64 * 64) by (nonlinear_arith) requires s.len() <= 64;
        }
        score + 12 * pairs
    }

    /// Whether a file holds an own pawn, and whether it holds any pawn.
    fn file_pawns(board: &Board, file: usize, color: Color) -> (r: (bool, bool))
        requires
            file < 8,
        ensures
            r.0 == file_has(board@, file as int, pawn_of(color)),
            r.1 == (file_has(board@, file as int, pawn_of(color))
                || file_has(board@, file as int, pawn_of(opposite(color)))),
    {
        let pawn = match color {
            Color::White => Piece::WhitePawn,
            Color::Black => Piece::BlackPawn,
        };
        let opponent_pawn = match color {
            Color::White => Piece::BlackPawn,
            Color::Black => Piece::WhitePawn,
        };
        let own = KingSafety::file_has_pawn(board, file, pawn);
        let other = KingSafety::file_has_pawn(board, file, opponent_pawn);
        (own, own || other)
    }

    /// Two rooks on one rank or file with nothing between them.
    fn clear_path(board: &Board, a: (usize, usize), b: (usize, usize)) -> (r: bool)
        requires
            on_board(a.0 as int, a.1 as int),
            on_board(b.0 as int, b.1 as int),
        ensures
            r == connected(board@, a, b),
    {
        if a.0 != b.0 && a.1 != b.1 {
            return false;
        }
        board.path_is_clear(a, b)
    }
}

} // verus!
