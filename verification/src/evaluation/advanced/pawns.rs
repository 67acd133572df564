use vstd::prelude::*;
use crate::board::board::{Board, BoardModel, Color, dist, on_board};
use crate::board::pieces::Piece;
use crate::evaluation::{Score, board_sum, lemma_board_sum_bounds, perspective, side_to_move_perspective};

verus! {

/// The number of squares among the first `n` ranks of file `f` holding `p`.
pub open spec fn count_in_file(m: BoardModel, f: int, p: Piece, n: int) -> int
    decreases n,
{
    if n <= 0 { 0 } else { count_in_file(m, f, p, n - 1) + if m.at(n - 1, f) == p { 1int } else { 0int } }
}

/// The highest rank index below `n` on file `f` holding `p`, or -1.
pub open spec fn last_rank(m: BoardModel, f: int, p: Piece, n: int) -> int
    decreases n,
{
    if n <= 0 { -1 } else if m.at(n - 1, f) == p { n - 1 } else { last_rank(m, f, p, n - 1) }
}

/// The lowest rank index below `n` on file `f` holding `p`, or 8.
pub open spec fn first_rank(m: BoardModel, f: int, p: Piece, n: int) -> int
    decreases n,
{
    if n <= 0 {
        8
    } else {
        let prev = first_rank(m, f, p, n - 1);
        if prev < 8 { prev } else if m.at(n - 1, f) == p { n - 1 } else { 8 }
    }
}

/// No own pawn on a neighbouring file.
pub open spec fn isolated(m: BoardModel, f: int, p: Piece) -> bool {
    (f == 0 || count_in_file(m, f - 1, p, 8) == 0) && (f == 7 || count_in_file(m, f + 1, p, 8) == 0)
}

/// More than one own pawn on the file.
pub open spec fn doubled(m: BoardModel, f: int, p: Piece) -> bool {
    count_in_file(m, f, p, 8) > 1
}

pub open spec fn passer_file_ok(m: BoardModel, r: int, nf: int, p: Piece) -> bool {
    nf < 0 || nf >= 8 || if p == Piece::WhitePawn {
        first_rank(m, nf, Piece::BlackPawn, 8) > r
    } else {
        last_rank(m, nf, Piece::WhitePawn, 8) < r
    }
}

/// No enemy pawn ahead of the pawn on its own or a neighbouring file.
pub open spec fn passed(m: BoardModel, r: int, f: int, p: Piece) -> bool {
    passer_file_ok(m, r, f - 1, p) && passer_file_ok(m, r, f, p) && passer_file_ok(m, r, f + 1, p)
}

/// No own pawn diagonally behind the pawn (a black pawn on rank index 0 is never backward).
pub open spec fn backward(m: BoardModel, r: int, f: int, p: Piece) -> bool {
    if p != Piece::WhitePawn && r == 0 {
        false
    } else {
        let s = if p == Piece::WhitePawn { r + 1 } else { r - 1 };
        (f == 0 || m.at(s, f - 1) != p) && (f == 7 || m.at(s, f + 1) != p)
    }
}

/// The first occupied square's piece from rank `rr` downward (towards index 7) on file `f`.
pub open spec fn first_down(m: BoardModel, rr: int, f: int) -> Piece
    decreases 8 - rr,
{
    if rr < 0 || rr >= 8 { Piece::Empty } else if m.at(rr, f) != Piece::Empty { m.at(rr, f) } else { first_down(m, rr + 1, f) }
}

/// The first occupied square's piece from rank `rr` upward (towards index 0) on file `f`.
pub open spec fn first_up(m: BoardModel, rr: int, f: int) -> Piece
    decreases rr + 1,
{
    if rr < 0 || rr >= 8 { Piece::Empty } else if m.at(rr, f) != Piece::Empty { m.at(rr, f) } else { first_up(m, rr - 1, f) }
}

/// A queen on `from` would attack `target` once the square `ignore` is emptied.
pub open spec fn queen_line(m: BoardModel, from: (int, int), target: (int, int), ignore: (int, int)) -> bool {
    let dr = target.0 - from.0;
    let df = target.1 - from.1;
    if dr == 0 && df == 0 {
        false
    } else if dr != 0 && df != 0 && (if dr < 0 { -dr } else { dr }) != (if df < 0 { -df } else { df }) {
        false
    } else {
        m.with_grid(m.put(ignore.0, ignore.1, Piece::Empty)).clear_path(from.0, from.1, target.0, target.1)
    }
}

pub open spec fn base_bonus(d: int) -> int {
    if d == 6 { 45 } else if d == 5 { 80 } else if d == 4 { 140 } else if d == 3 { 230 } else if d == 2 { 360 } else { 520 }
}

/// The enemy king's share: 30 for each step it is closer than four to the promotion square.
pub open spec fn enemy_king_term(ek: Option<(usize, usize)>, promo: (int, int)) -> int {
    match ek {
        Some(k) => {
            let kd = dist(k.0 as int, k.1 as int, promo.0, promo.1);
            if kd < 4 { (4 - kd) * 30 } else { 0 }
        },
        None => 0,
    }
}

/// The own king's escort: 40, and 15 more per step closer than two, within two squares.
pub open spec fn own_king_term(ok: Option<(usize, usize)>, r: int, f: int) -> int {
    match ok {
        Some(k) => {
            let kd = dist(k.0 as int, k.1 as int, r, f);
            if kd <= 2 { 40 + (2 - kd) * 15 } else { 0 }
        },
        None => 0,
    }
}

/// The first piece behind the pawn on its file is an own rook or queen.
pub open spec fn backed(m: BoardModel, r: int, f: int, w: bool) -> bool {
    if w {
        first_down(m, r + 1, f) == Piece::WhiteRook || first_down(m, r + 1, f) == Piece::WhiteQueen
    } else {
        first_up(m, r - 1, f) == Piece::BlackRook || first_up(m, r - 1, f) == Piece::BlackQueen
    }
}

/// 80 when the pawn is one step from promotion and the new queen would attack the enemy king.
pub open spec fn check_term(m: BoardModel, d: int, promo: (int, int), ek: Option<(usize, usize)>, r: int, f: int) -> int {
    match ek {
        Some(k) => if d == 1 && queen_line(m, promo, (k.0 as int, k.1 as int), (r, f)) { 80 } else { 0 },
        None => 0,
    }
}

/// The bonus of a passed pawn on (r, f), given where the kings stand: it grows
/// steeply as the pawn nears promotion, shrinks on the edge files, grows as the
/// enemy king gets closer to the promotion square and when the own king
/// escorts the pawn, when an own rook or queen backs it up, and when promoting
/// next move would attack the enemy king.
pub open spec fn passer_bonus(
    m: BoardModel,
    r: int,
    f: int,
    p: Piece,
    wk: Option<(usize, usize)>,
    bk: Option<(usize, usize)>,
) -> int {
    let w = p == Piece::WhitePawn;
    let d = if w { r } else { 7 - r };
    if d <= 0 {
        0
    } else {
        let promo: (int, int) = if w { (0, f) } else { (7, f) };
        let ek = if w { bk } else { wk };
        let ok = if w { wk } else { bk };
        base_bonus(d) - (if f == 0 || f == 7 { 25int } else { 0int }) + enemy_king_term(ek, promo)
            + own_king_term(ok, r, f) + (if backed(m, r, f, w) { 30int } else { 0int })
            + check_term(m, d, promo, ek, r, f)
    }
}

/// The structure score of one pawn: isolated -20, doubled -15, backward -10, and
/// the passed pawn bonus.
pub open spec fn pawn_term(
    m: BoardModel,
    r: int,
    f: int,
    p: Piece,
    wk: Option<(usize, usize)>,
    bk: Option<(usize, usize)>,
) -> int {
    (if isolated(m, f, p) { -20int } else { 0int }) + (if doubled(m, f, p) { -15int } else { 0int })
        + (if passed(m, r, f, p) { passer_bonus(m, r, f, p, wk, bk) } else { 0int })
        + (if backward(m, r, f, p) { -10int } else { 0int })
}

pub open spec fn pawns_fn(
    m: BoardModel,
    p: Piece,
    wk: Option<(usize, usize)>,
    bk: Option<(usize, usize)>,
) -> spec_fn(Piece, int, int) -> int {
    |q: Piece, r: int, f: int| if q == p { pawn_term(m, r, f, p, wk, bk) } else { 0 }
}

/// The pawn structure score of all pawns `p`.
pub open spec fn pawn_score(m: BoardModel, p: Piece) -> int {
    board_sum(m, 64, pawns_fn(m, p, m.king_square(Color::White), m.king_square(Color::Black)))
}

/// White's pawn structure less black's, from the side to move's point of view.
pub open spec fn pawn_eval(m: BoardModel) -> int {
    perspective(m, pawn_score(m, Piece::WhitePawn) - pawn_score(m, Piece::BlackPawn))
}

/// No white pawn stands on white's own back rank (rank index 7), where the
/// backward-pawn test would look past the edge of the board.
pub open spec fn pawns_in_range(m: BoardModel) -> bool {
    forall|f: int| 0 <= f < 8 ==> m.at(7, f) != Piece::WhitePawn
}

proof fn lemma_count_bounds(m: BoardModel, f: int, p: Piece, n: int)
    requires
        0 <= n <= 8,
    ensures
        0 <= count_in_file(m, f, p, n) <= n,
        -1 <= last_rank(m, f, p, n) < n,
        0 <= first_rank(m, f, p, n) <= 8,
        first_rank(m, f, p, n) < 8 ==> first_rank(m, f, p, n) < n,
    decreases n,
{
    if n > 0 {
        lemma_count_bounds(m, f, p, n - 1);
    }
}

proof fn lemma_pawn_term_bounds(m: BoardModel, r: int, f: int, p: Piece, wk: Option<(usize, usize)>, bk: Option<(usize, usize)>)
    ensures
        -45 <= pawn_term(m, r, f, p, wk, bk) <= 790,
{
}

proof fn lemma_pawn_sums(m: BoardModel, p: Piece, wk: Option<(usize, usize)>, bk: Option<(usize, usize)>, n: int)
    requires
        0 <= n <= 64,
    ensures
        n * -45 <= board_sum(m, n, pawns_fn(m, p, wk, bk)) <= n * 790,
{
    assert forall|q: Piece, r: int, f: int| -45 <= #[trigger] pawns_fn(m, p, wk, bk)(q, r, f) <= 790 by {
        lemma_pawn_term_bounds(m, r, f, p, wk, bk);
    }
    lemma_board_sum_bounds(m, n, pawns_fn(m, p, wk, bk), -45, 790);
}

/// Per-file pawn counts and extreme ranks.
struct PawnFileStats {
    white_count: Vec<u8>,
    black_count: Vec<u8>,
    white_max_rank: Vec<i8>,
    black_min_rank: Vec<i8>,
}

impl PawnFileStats {
    spec fn describes(&self, m: BoardModel) -> bool {
        &&& self.white_count@.len() == 8
        &&& self.black_count@.len() == 8
        &&& self.white_max_rank@.len() == 8
        &&& self.black_min_rank@.len() == 8
        &&& forall|f: int| 0 <= f < 8 ==> {
            &&& #[trigger] self.white_count@[f] == count_in_file(m, f, Piece::WhitePawn, 8)
            &&& self.black_count@[f] == count_in_file(m, f, Piece::BlackPawn, 8)
            &&& self.white_max_rank@[f] == last_rank(m, f, Piece::WhitePawn, 8)
            &&& self.black_min_rank@[f] == first_rank(m, f, Piece::BlackPawn, 8)
        }
    }

    fn file_stats(board: &Board, file: usize) -> (r: (u8, u8, i8, i8))
        requires
            file < 8,
        ensures
            r.0 == count_in_file(board@, file as int, Piece::WhitePawn, 8),
            r.1 == count_in_file(board@, file as int, Piece::BlackPawn, 8),
            r.2 == last_rank(board@, file as int, Piece::WhitePawn, 8),
            r.3 == first_rank(board@, file as int, Piece::BlackPawn, 8),
    {
        let ghost m = board@;
        let mut wc: u8 = 0;
        let mut bc: u8 = 0;
        let mut wmax: i8 = -1;
        let mut bmin: i8 = 8;
        let mut rank: usize = 0;
        while rank < 8
            invariant
                rank <= 8,
                file < 8,
                m == board@,
                wc == count_in_file(m, file as int, Piece::WhitePawn, rank as int),
                bc == count_in_file(m, file as int, Piece::BlackPawn, rank as int),
                wmax == last_rank(m, file as int, Piece::WhitePawn, rank as int),
                bmin == first_rank(m, file as int, Piece::BlackPawn, rank as int),
            decreases 8 - rank,
        {
            proof {
                lemma_count_bounds(m, file as int, Piece::WhitePawn, rank as int);
                lemma_count_bounds(m, file as int, Piece::BlackPawn, rank as int);
            }
            match board.squares[rank][file] {
                Piece::WhitePawn => {
                    wc = wc + 1;
                    if wmax < rank as i8 {
                        wmax = rank as i8;
                    }
                },
                Piece::BlackPawn => {
                    bc = bc + 1;
                    if bmin > rank as i8 {
                        bmin = rank as i8;
                    }
                },
                _ => {},
            }
            rank = rank + 1;
        }
        (wc, bc, wmax, bmin)
    }

    fn collect(board: &Board) -> (stats: Self)
        ensures
            stats.describes(board@),
    {
        let ghost m = board@;
        let mut stats = PawnFileStats {
            white_count: Vec::new(),
            black_count: Vec::new(),
            white_max_rank: Vec::new(),
            black_min_rank: Vec::new(),
        };
        let mut file: usize = 0;
        while file < 8
            invariant
                file <= 8,
                m == board@,
                stats.white_count@.len() == file,
                stats.black_count@.len() == file,
                stats.white_max_rank@.len() == file,
                stats.black_min_rank@.len() == file,
                forall|f: int| 0 <= f < file ==> {
                    &&& #[trigger] stats.white_count@[f] == count_in_file(m, f, Piece::WhitePawn, 8)
                    &&& stats.black_count@[f] == count_in_file(m, f, Piece::BlackPawn, 8)
                    &&& stats.white_max_rank@[f] == last_rank(m, f, Piece::WhitePawn, 8)
                    &&& stats.black_min_rank@[f] == first_rank(m, f, Piece::BlackPawn, 8)
                },
            decreases 8 - file,
        {
            let (wc, bc, wmax, bmin) = Self::file_stats(board, file);
            let ghost old_stats = (stats.white_count@, stats.black_count@, stats.white_max_rank@, stats.black_min_rank@);
            stats.white_count.push(wc);
            stats.black_count.push(bc);
            stats.white_max_rank.push(wmax);
            stats.black_min_rank.push(bmin);
            proof {
                assert forall|f: int| 0 <= f < file + 1 implies {
                    &&& #[trigger] stats.white_count@[f] == count_in_file(m, f, Piece::WhitePawn, 8)
                    &&& stats.black_count@[f] == count_in_file(m, f, Piece::BlackPawn, 8)
                    &&& stats.white_max_rank@[f] == last_rank(m, f, Piece::WhitePawn, 8)
                    &&& stats.black_min_rank@[f] == first_rank(m, f, Piece::BlackPawn, 8)
                } by {
                    if f < file {
                        assert(old_stats.0[f] == count_in_file(m, f, Piece::WhitePawn, 8));
                        assert(stats.white_count@[f] == old_stats.0[f]);
                        assert(stats.black_count@[f] == old_stats.1[f]);
                        assert(stats.white_max_rank@[f] == old_stats.2[f]);
                        assert(stats.black_min_rank@[f] == old_stats.3[f]);
                    }
                }
            }
            file = file + 1;
        }
        stats
    }
}

pub struct PawnStructure;

impl PawnStructure {
    /// White's pawn structure less black's, from the side to move's point of view.
    pub fn evaluate(board: &Board) -> (s: Score)
        requires
            pawns_in_range(board@),
        ensures
            s == pawn_eval(board@),
            -53440 <= s <= 53440,
    {
        let stats = PawnFileStats::collect(board);
        let white_king = Self::find_king(board, Color::White);
        let black_king = Self::find_king(board, Color::Black);
        let white_score = Self::evaluate_pawns(board, Piece::WhitePawn, &stats, white_king, black_king);
        let black_score = Self::evaluate_pawns(board, Piece::BlackPawn, &stats, white_king, black_king);
        side_to_move_perspective(board, white_score - black_score)
    }

    fn evaluate_pawns(
        board: &Board,
        pawn_piece: Piece,
        stats: &PawnFileStats,
        white_king: Option<(usize, usize)>,
        black_king: Option<(usize, usize)>,
    ) -> (s: Score)
        requires
            pawn_piece == Piece::WhitePawn || pawn_piece == Piece::BlackPawn,
            pawns_in_range(board@),
            stats.describes(board@),
            white_king matches Some(k) ==> on_board(k.0 as int, k.1 as int),
            black_king matches Some(k) ==> on_board(k.0 as int, k.1 as int),
        ensures
            s == board_sum(board@, 64, pawns_fn(board@, pawn_piece, white_king, black_king)),
            -45 * 64 <= s <= 790 * 64,
    {
        let ghost m = board@;
        let ghost v = pawns_fn(m, pawn_piece, white_king, black_king);
        let mut score: i32 = 0;
        let mut i: usize = 0;
        while i < 64
            invariant
                i <= 64,
                m == board@,
                v == pawns_fn(m, pawn_piece, white_king, black_king),
                pawn_piece == Piece::WhitePawn || pawn_piece == Piece::BlackPawn,
                pawns_in_range(m),
                stats.describes(m),
                white_king matches Some(k) ==> on_board(k.0 as int, k.1 as int),
                black_king matches Some(k) ==> on_board(k.0 as int, k.1 as int),
                score == board_sum(m, i as int, v),
            decreases 64 - i,
        {
            let rank = i / 8;
            let file = i % 8;
            proof {
                lemma_pawn_sums(m, pawn_piece, white_king, black_king, i as int);
            }
            if board.squares[rank][file] == pawn_piece {
                let ghost before = score as int;
                if Self::is_isolated_pawn((rank, file), pawn_piece, stats, Ghost(m)) {
                    score = score - 20;
                }
                if Self::is_doubled_pawn((rank, file), pawn_piece, stats, Ghost(m)) {
                    score = score - 15;
                }
                if Self::is_passed_pawn((rank, file), pawn_piece, stats, Ghost(m)) {
                    score = score + Self::passed_pawn_bonus_with_kings(board, (rank, file), pawn_piece, white_king, black_king);
                }
                if Self::is_backward_pawn(board, (rank, file), pawn_piece) {
                    score = score - 10;
                }
                assert(score == before + pawn_term(m, rank as int, file as int, pawn_piece, white_king, black_king));
            }
            i = i + 1;
        }
        proof {
            lemma_pawn_sums(m, pawn_piece, white_king, black_king, 64);
        }
        score
    }

    fn is_isolated_pawn(pos: (usize, usize), pawn_piece: Piece, stats: &PawnFileStats, Ghost(m): Ghost<BoardModel>) -> (r: bool)
        requires
            pawn_piece == Piece::WhitePawn || pawn_piece == Piece::BlackPawn,
            pos.1 < 8,
            stats.describes(m),
        ensures
            r == isolated(m, pos.1 as int, pawn_piece),
    {
        let counts = match pawn_piece {
            Piece::WhitePawn => &stats.white_count,
            _ => &stats.black_count,
        };
        if pos.1 > 0 {
            assert(stats.white_count@[pos.1 - 1] == count_in_file(m, pos.1 - 1, Piece::WhitePawn, 8));
            if counts[pos.1 - 1] > 0 {
                return false;
            }
        }
        if pos.1 < 7 {
            assert(stats.white_count@[pos.1 + 1] == count_in_file(m, pos.1 + 1, Piece::WhitePawn, 8));
            if counts[pos.1 + 1] > 0 {
                return false;
            }
        }
        true
    }

    fn is_doubled_pawn(pos: (usize, usize), pawn_piece: Piece, stats: &PawnFileStats, Ghost(m): Ghost<BoardModel>) -> (r: bool)
        requires
            pawn_piece == Piece::WhitePawn || pawn_piece == Piece::BlackPawn,
            pos.1 < 8,
            stats.describes(m),
        ensures
            r == doubled(m, pos.1 as int, pawn_piece),
    {
        assert(stats.white_count@[pos.1 as int] == count_in_file(m, pos.1 as int, Piece::WhitePawn, 8));
        let count = match pawn_piece {
            Piece::WhitePawn => stats.white_count[pos.1],
            _ => stats.black_count[pos.1],
        };
        count > 1
    }

    fn is_passed_pawn(pos: (usize, usize), pawn_piece: Piece, stats: &PawnFileStats, Ghost(m): Ghost<BoardModel>) -> (r: bool)
        requires
            pawn_piece == Piece::WhitePawn || pawn_piece == Piece::BlackPawn,
            on_board(pos.0 as int, pos.1 as int),
            stats.describes(m),
        ensures
            r == passed(m, pos.0 as int, pos.1 as int, pawn_piece),
    {
        let file0 = pos.1 as i32;
        let mut f: i32 = file0 - 1;
        while f <= file0 + 1
            invariant
                file0 == pos.1 as int,
                0 <= file0 < 8,
                file0 - 1 <= f <= file0 + 2,
                on_board(pos.0 as int, pos.1 as int),
                pawn_piece == Piece::WhitePawn || pawn_piece == Piece::BlackPawn,
                stats.describes(m),
                forall|nf: int| file0 - 1 <= nf < f ==> #[trigger] passer_file_ok(m, pos.0 as int, nf, pawn_piece),
            decreases file0 + 2 - f,
        {
            if f >= 0 && f < 8 {
                assert(stats.white_count@[f as int] == count_in_file(m, f as int, Piece::WhitePawn, 8));
                match pawn_piece {
                    Piece::WhitePawn => {
                        if stats.black_min_rank[f as usize] <= pos.0 as i8 {
                            assert(!passer_file_ok(m, pos.0 as int, f as int, pawn_piece));
                            return false;
                        }
                    },
                    _ => {
                        if stats.white_max_rank[f as usize] >= pos.0 as i8 {
                            assert(!passer_file_ok(m, pos.0 as int, f as int, pawn_piece));
                            return false;
                        }
                    },
                }
                assert(passer_file_ok(m, pos.0 as int, f as int, pawn_piece));
            }
            f = f + 1;
        }
        assert(passer_file_ok(m, pos.0 as int, file0 - 1, pawn_piece));
        assert(passer_file_ok(m, pos.0 as int, file0 as int, pawn_piece));
        assert(passer_file_ok(m, pos.0 as int, file0 + 1, pawn_piece));
        true
    }

    fn is_backward_pawn(board: &Board, pos: (usize, usize), pawn_piece: Piece) -> (r: bool)
        requires
            pawn_piece == Piece::WhitePawn || pawn_piece == Piece::BlackPawn,
            on_board(pos.0 as int, pos.1 as int),
            pawn_piece == Piece::WhitePawn ==> pos.0 < 7,
        ensures
            r == backward(board@, pos.0 as int, pos.1 as int, pawn_piece),
    {
        let is_white = pawn_piece == Piece::WhitePawn;
        let support_rank: usize = if is_white {
            pos.0 + 1
        } else {
            if pos.0 > 0 {
                pos.0 - 1
            } else {
                return false;
            }
        };
        if pos.1 > 0 && board.squares[support_rank][pos.1 - 1] == pawn_piece {
            return false;
        }
        if pos.1 < 7 && board.squares[support_rank][pos.1 + 1] == pawn_piece {
            return false;
        }
        true
    }

    /// The passed pawn bonus of the pawn on `pos`, with the kings where they stand.
    pub fn passed_pawn_bonus(board: &Board, pos: (usize, usize), pawn_piece: Piece) -> (s: Score)
        requires
            pawn_piece == Piece::WhitePawn || pawn_piece == Piece::BlackPawn,
            on_board(pos.0 as int, pos.1 as int),
        ensures
            s == passer_bonus(board@, pos.0 as int, pos.1 as int, pawn_piece,
                board@.king_square(Color::White), board@.king_square(Color::Black)),
    {
        let white_king = Self::find_king(board, Color::White);
        let black_king = Self::find_king(board, Color::Black);
        Self::passed_pawn_bonus_with_kings(board, pos, pawn_piece, white_king, black_king)
    }

    fn chebyshev(a: (usize, usize), b: (usize, usize)) -> (d: i32)
        requires
            on_board(a.0 as int, a.1 as int),
            on_board(b.0 as int, b.1 as int),
        ensures
            d == dist(a.0 as int, a.1 as int, b.0 as int, b.1 as int),
            0 <= d <= 7,
    {
        let x: i32 = a.0 as i32 - b.0 as i32;
        let y: i32 = a.1 as i32 - b.1 as i32;
        let ax: i32 = if x < 0 { -x } else { x };
        let ay: i32 = if y < 0 { -y } else { y };
        if ax >= ay { ax } else { ay }
    }

    fn passed_pawn_bonus_with_kings(
        board: &Board,
        pos: (usize, usize),
        pawn_piece: Piece,
        white_king: Option<(usize, usize)>,
        black_king: Option<(usize, usize)>,
    ) -> (s: Score)
        requires
            pawn_piece == Piece::WhitePawn || pawn_piece == Piece::BlackPawn,
            on_board(pos.0 as int, pos.1 as int),
            white_king matches Some(k) ==> on_board(k.0 as int, k.1 as int),
            black_king matches Some(k) ==> on_board(k.0 as int, k.1 as int),
        ensures
            s == passer_bonus(board@, pos.0 as int, pos.1 as int, pawn_piece, white_king, black_king),
            0 <= s <= 790,
    {
        let is_white = pawn_piece == Piece::WhitePawn;
        let (rank, file) = pos;
        let dist: i32 = if is_white { rank as i32 } else { 7 - rank as i32 };
        if dist <= 0 {
            return 0;
        }
        let base: i32 = match dist {
            6 => 45,
            5 => 80,
            4 => 140,
            3 => 230,
            2 => 360,
            _ => 520,
        };
        let mut bonus: i32 = base;
        if file == 0 || file == 7 {
            bonus = bonus - 25;
        }
        let promo_sq: (usize, usize) = if is_white { (0, file) } else { (7, file) };
        let (enemy_king, own_king) = if is_white { (black_king, white_king) } else { (white_king, black_king) };
        bonus = bonus + Self::enemy_king_bonus(enemy_king, promo_sq);
        bonus = bonus + Self::own_king_bonus(own_king, pos);
        if Self::backed_up(board, pos, is_white) {
            bonus = bonus + 30;
        }
        bonus = bonus + Self::check_bonus(board, dist, promo_sq, enemy_king, pos);
        bonus
    }

    fn enemy_king_bonus(enemy_king: Option<(usize, usize)>, promo_sq: (usize, usize)) -> (b: i32)
        requires
            enemy_king matches Some(k) ==> on_board(k.0 as int, k.1 as int),
            on_board(promo_sq.0 as int, promo_sq.1 as int),
        ensures
            b == enemy_king_term(enemy_king, (promo_sq.0 as int, promo_sq.1 as int)),
            0 <= b <= 120,
    {
        match enemy_king {
            Some(k) => {
                let kdist = Self::chebyshev(k, promo_sq);
                if kdist < 4 { (4 - kdist) * 30 } else { 0 }
            },
            None => 0,
        }
    }

    fn own_king_bonus(own_king: Option<(usize, usize)>, pos: (usize, usize)) -> (b: i32)
        requires
            own_king matches Some(k) ==> on_board(k.0 as int, k.1 as int),
            on_board(pos.0 as int, pos.1 as int),
        ensures
            b == own_king_term(own_king, pos.0 as int, pos.1 as int),
            0 <= b <= 70,
    {
        match own_king {
            Some(k) => {
                let kdist = Self::chebyshev(k, pos);
                if kdist <= 2 { 40 + (2 - kdist) * 15 } else { 0 }
            },
            None => 0,
        }
    }

    fn check_bonus(
        board: &Board,
        dist: i32,
        promo_sq: (usize, usize),
        enemy_king: Option<(usize, usize)>,
        pos: (usize, usize),
    ) -> (b: i32)
        requires
            enemy_king matches Some(k) ==> on_board(k.0 as int, k.1 as int),
            on_board(promo_sq.0 as int, promo_sq.1 as int),
            on_board(pos.0 as int, pos.1 as int),
        ensures
            b == check_term(board@, dist as int, (promo_sq.0 as int, promo_sq.1 as int), enemy_king,
                pos.0 as int, pos.1 as int),
            0 <= b <= 80,
    {
        match enemy_king {
            Some(k) => if dist == 1 && Self::queen_attacks(board, promo_sq, k, pos) { 80 } else { 0 },
            None => 0,
        }
    }

    /// Whether the first piece behind the pawn on its file is an own rook or queen.
    fn backed_up(board: &Board, pos: (usize, usize), is_white: bool) -> (r: bool)
        requires
            on_board(pos.0 as int, pos.1 as int),
        ensures
            r == backed(board@, pos.0 as int, pos.1 as int, is_white),
    {
        let ghost m = board@;
        let (rank, file) = pos;
        if is_white {
            let mut rr: usize = rank + 1;
            while rr < 8
                invariant
                    rank < rr <= 8,
                    file < 8,
                    is_white,
                    rank == pos.0,
                    file == pos.1,
                    m == board@,
                    first_down(m, rank as int + 1, file as int) == first_down(m, rr as int, file as int),
                decreases 8 - rr,
            {
                let sq = board.squares[rr][file];
                if sq != Piece::Empty {
                    assert(sq == m.at(rr as int, file as int));
                    assert(first_down(m, rr as int, file as int) == sq);
                    return sq == Piece::WhiteRook || sq == Piece::WhiteQueen;
                }
                rr = rr + 1;
            }
            false
        } else {
            let mut rr: i32 = rank as i32 - 1;
            while rr >= 0
                invariant
                    -1 <= rr < rank,
                    rank < 8,
                    file < 8,
                    !is_white,
                    rank == pos.0,
                    file == pos.1,
                    m == board@,
                    first_up(m, rank as int - 1, file as int) == first_up(m, rr as int, file as int),
                decreases rr + 1,
            {
                let sq = board.squares[rr as usize][file];
                if sq != Piece::Empty {
                    assert(sq == m.at(rr as int, file as int));
                    assert(first_up(m, rr as int, file as int) == sq);
                    return sq == Piece::BlackRook || sq == Piece::BlackQueen;
                }
                rr = rr - 1;
            }
            false
        }
    }

    fn find_king(board: &Board, color: Color) -> (r: Option<(usize, usize)>)
        ensures
            r == board@.king_square(color),
            r matches Some(k) ==> on_board(k.0 as int, k.1 as int),
    {
        proof {
            crate::board::movegen::lemma_find_on_board(board@, crate::board::board::king_of(color), 0);
        }
        board.find_king(color)
    }

    /// Whether a queen on `from` would attack `target` with `ignore` emptied.
    fn queen_attacks(board: &Board, from: (usize, usize), target: (usize, usize), ignore: (usize, usize)) -> (r: bool)
        requires
            on_board(from.0 as int, from.1 as int),
            on_board(target.0 as int, target.1 as int),
            on_board(ignore.0 as int, ignore.1 as int),
        ensures
            r == queen_line(board@, (from.0 as int, from.1 as int), (target.0 as int, target.1 as int),
                (ignore.0 as int, ignore.1 as int)),
    {
        let dr: i32 = target.0 as i32 - from.0 as i32;
        let df: i32 = target.1 as i32 - from.1 as i32;
        if dr == 0 && df == 0 {
            return false;
        }
        let ar: i32 = if dr < 0 { -dr } else { dr };
        let af: i32 = if df < 0 { -df } else { df };
        if dr != 0 && df != 0 && ar != af {
            return false;
        }
        let mut scratch = *board;
        scratch.set_piece(ignore.0, ignore.1, Piece::Empty);
        scratch.path_is_clear(from, target)
    }
}

} // verus!
