use vstd::prelude::*;
use crate::board::board::{Board, BoardModel, Color, abs, dist, on_board, of_side, opposite, king_of};
use crate::board::movegen::king_offset;
use crate::board::pieces::{Piece, white, black, is_white, is_black};
use crate::evaluation::{Score, board_sum, lemma_board_sum_bounds, perspective, side_to_move_perspective};
use crate::evaluation::material::{MaterialEvaluation, white_material, black_material, lemma_material_bounds};

verus! {

/// A side's pawn.
pub open spec fn pawn_of(c: Color) -> Piece {
    match c {
        Color::White => Piece::WhitePawn,
        Color::Black => Piece::BlackPawn,
    }
}

/// Whether the piece `p` standing on (fr, ff) attacks (tr, tf), whoever is to move:
/// pawns capture one step diagonally forward, knights jump, kings step, and
/// bishops, rooks and queens need every square in between to be empty.
pub open spec fn hits(m: BoardModel, fr: int, ff: int, p: Piece, tr: int, tf: int) -> bool {
    let dr = tr - fr;
    let df = tf - ff;
    let ar = abs(dr);
    let af = abs(df);
    match p {
        Piece::WhitePawn => ar == 1 && af == 1 && dr == -1,
        Piece::BlackPawn => ar == 1 && af == 1 && dr == 1,
        Piece::WhiteKnight | Piece::BlackKnight => (ar == 2 && af == 1) || (ar == 1 && af == 2),
        Piece::WhiteBishop | Piece::BlackBishop => ar == af && ar != 0 && m.clear_path(fr, ff, tr, tf),
        Piece::WhiteRook | Piece::BlackRook => (ar == 0 || af == 0) && ar + af > 0 && m.clear_path(fr, ff, tr, tf),
        Piece::WhiteQueen | Piece::BlackQueen => ((ar == af && ar != 0) || ar == 0 || af == 0) && ar + af > 0
            && m.clear_path(fr, ff, tr, tf),
        Piece::WhiteKing | Piece::BlackKing => ar <= 1 && af <= 1 && (dr != 0 || df != 0),
        Piece::Empty => false,
    }
}

/// The king's square followed by its neighbours on the board, in the order
/// rank step then file step, each from -1 to 1; the first `n` neighbours are considered.
pub open spec fn ring(kr: int, kf: int, n: int) -> Seq<(usize, usize)>
    decreases n,
{
    if n <= 0 {
        seq![(kr as usize, kf as usize)]
    } else {
        let prev = ring(kr, kf, n - 1);
        let o = king_offset(n - 1);
        if on_board(kr + o.0, kf + o.1) {
            prev.push(((kr + o.0) as usize, (kf + o.1) as usize))
        } else {
            prev
        }
    }
}

/// The king's square and the neighbouring squares it could flee to.
pub open spec fn king_zone(kr: int, kf: int) -> Seq<(usize, usize)> {
    ring(kr, kf, 8)
}

pub open spec fn attack_ind(m: BoardModel, enemy: Color, tr: int, tf: int, p: Piece, r: int, f: int) -> int {
    if of_side(p, enemy) && hits(m, r, f, p, tr, tf) { 1 } else { 0 }
}

pub open spec fn attack_ind_fn(m: BoardModel, enemy: Color, tr: int, tf: int) -> spec_fn(Piece, int, int) -> int {
    |p: Piece, r: int, f: int| attack_ind(m, enemy, tr, tf, p, r, f)
}

/// The number of `enemy` pieces that attack (tr, tf).
pub open spec fn attackers(m: BoardModel, enemy: Color, tr: int, tf: int) -> int {
    board_sum(m, 64, attack_ind_fn(m, enemy, tr, tf))
}

/// How much an attacking piece weighs in the king danger count.
pub open spec fn attack_weight(p: Piece) -> int {
    match p {
        Piece::WhitePawn | Piece::BlackPawn => 2,
        Piece::WhiteKnight | Piece::BlackKnight => 4,
        Piece::WhiteBishop | Piece::BlackBishop => 4,
        Piece::WhiteRook | Piece::BlackRook => 5,
        Piece::WhiteQueen | Piece::BlackQueen => 8,
        Piece::WhiteKing | Piece::BlackKing => 1,
        Piece::Empty => 0,
    }
}

/// The attack units of the piece on (r, f) against the first `n` squares of `ts`:
/// its weight for each square it attacks, doubled for the first (the king's own square).
pub open spec fn units_at(m: BoardModel, r: int, f: int, p: Piece, ts: Seq<(usize, usize)>, n: int) -> int
    decreases n,
{
    if n <= 0 {
        0
    } else {
        units_at(m, r, f, p, ts, n - 1) + if hits(m, r, f, p, ts[n - 1].0 as int, ts[n - 1].1 as int) {
            attack_weight(p) * (if n - 1 == 0 { 2int } else { 1int })
        } else {
            0
        }
    }
}

pub open spec fn units_fn(m: BoardModel, enemy: Color, ts: Seq<(usize, usize)>) -> spec_fn(Piece, int, int) -> int {
    |p: Piece, r: int, f: int| if of_side(p, enemy) { units_at(m, r, f, p, ts, ts.len() as int) } else { 0 }
}

/// The total attack units of the enemy pieces against the king zone.
pub open spec fn attack_units(m: BoardModel, enemy: Color, ts: Seq<(usize, usize)>) -> int {
    board_sum(m, 64, units_fn(m, enemy, ts))
}

pub open spec fn guard_fn(m: BoardModel, color: Color, kr: int, kf: int) -> spec_fn(Piece, int, int) -> int {
    |p: Piece, r: int, f: int|
        if of_side(p, color) && p != king_of(color) && 0 < dist(kr, kf, r, f) <= 2 { 1int } else { 0int }
}

pub open spec fn near_fn(m: BoardModel, enemy: Color, kr: int, kf: int, queen: bool, reach: int) -> spec_fn(Piece, int, int) -> int {
    |p: Piece, r: int, f: int|
        if of_side(p, enemy) && (if queen {
            p == Piece::WhiteQueen || p == Piece::BlackQueen
        } else {
            p == Piece::WhiteRook || p == Piece::BlackRook
        }) && dist(kr, kf, r, f) <= reach { 1int } else { 0int }
}

/// The number of squares among the first `n` of the king zone, after the king's
/// own, that are empty and attacked by no enemy piece.
pub open spec fn escapes(m: BoardModel, enemy: Color, ts: Seq<(usize, usize)>, n: int) -> int
    decreases n,
{
    if n <= 1 {
        0
    } else {
        let t = ts[n - 1];
        escapes(m, enemy, ts, n - 1) + if m.at(t.0 as int, t.1 as int) == Piece::Empty
            && attackers(m, enemy, t.0 as int, t.1 as int) == 0 { 1int } else { 0int }
    }
}

pub open spec fn cap(d: int) -> int {
    if d > 120 { 120 } else { d }
}

/// The pawn-shield term for one square in front of the king, `ring` ranks ahead.
pub open spec fn shield_term(m: BoardModel, kr: int, kf: int, color: Color, ring: int, df: int) -> int {
    let r = if color == Color::White { kr - ring } else { kr + ring };
    let f = kf + df;
    if on_board(r, f) && m.at(r, f) == pawn_of(color) {
        if ring == 1 { 15 } else { 8 }
    } else {
        0
    }
}

/// Own pawns on the three files around the king, one and two ranks ahead of it:
/// 15 for each on the first rank ahead, 8 on the second, at most 46 in all.
pub open spec fn pawn_shield(m: BoardModel, kr: int, kf: int, color: Color) -> int {
    let s = shield_term(m, kr, kf, color, 1, -1) + shield_term(m, kr, kf, color, 1, 0)
        + shield_term(m, kr, kf, color, 1, 1) + shield_term(m, kr, kf, color, 2, -1)
        + shield_term(m, kr, kf, color, 2, 0) + shield_term(m, kr, kf, color, 2, 1);
    if s > 46 { 46 } else { s }
}

/// Some square of file `f` holds the piece `p`.
pub open spec fn file_has(m: BoardModel, f: int, p: Piece) -> bool {
    exists|r: int| 0 <= r < 8 && #[trigger] m.at(r, f) == p
}

pub open spec fn file_penalty(m: BoardModel, kf: int, color: Color, df: int) -> int {
    let f = kf + df;
    if 0 <= f < 8 && !file_has(m, f, pawn_of(color)) {
        if df == 0 { 12 } else { 7 }
    } else {
        0
    }
}

/// A penalty for the king's file (12) and each neighbouring file (7) without an own pawn.
pub open spec fn open_files_penalty(m: BoardModel, kf: int, color: Color) -> int {
    -(file_penalty(m, kf, color, -1) + file_penalty(m, kf, color, 0) + file_penalty(m, kf, color, 1))
}

/// The attack-based king danger, between -120 and 0: the enemy attack units on the
/// king zone less the defence (pawn shield and own pieces within two squares,
/// six each, at most 80), raised when an enemy queen is within three squares,
/// an enemy rook within four, the king is attacked, or no escape square is safe.
pub open spec fn attack_danger(m: BoardModel, kr: int, kf: int, color: Color) -> int {
    let enemy = opposite(color);
    let ts = king_zone(kr, kf);
    let guard0 = pawn_shield(m, kr, kf, color) + 6 * board_sum(m, 64, guard_fn(m, color, kr, kf));
    let guard = if guard0 > 80 { 80 } else { guard0 };
    let raw = attack_units(m, enemy, ts) - guard;
    let d0 = cap(if raw < 0 { 0 } else { raw });
    let d1 = if board_sum(m, 64, near_fn(m, enemy, kr, kf, true, 3)) > 0 { cap(d0 + 6) } else { d0 };
    let d2 = if board_sum(m, 64, near_fn(m, enemy, kr, kf, false, 4)) > 0 { cap(d1 + 5) } else { d1 };
    let d3 = if attackers(m, enemy, kr, kf) > 0 { cap(d2 + 15) } else { d2 };
    let d4 = if escapes(m, enemy, ts, ts.len() as int) == 0 { cap(d3 + 35) } else { d3 };
    -d4
}

/// With enough material on the board, a king that has left its back rank is
/// penalised (12 per rank, at most 40, while it may still castle; else 18 per rank,
/// at most 70), and a king on the back rank that may no longer castle and stands on
/// the d- or e-file loses 20.
pub open spec fn exposed_king_penalty(m: BoardModel, kr: int, kf: int, color: Color) -> int {
    if white_material(m) + black_material(m) < 2600 {
        0
    } else {
        let back = if color == Color::White { 7 - kr } else { kr };
        let rights = if color == Color::White {
            m.castling.white_kingside || m.castling.white_queenside
        } else {
            m.castling.black_kingside || m.castling.black_queenside
        };
        if back == 0 {
            if !rights && (kf == 3 || kf == 4) { -20 } else { 0 }
        } else if rights {
            if 12 * back > 40 { -40 } else { -12 * back }
        } else {
            if 18 * back > 70 { -70 } else { -18 * back }
        }
    }
}

/// The safety of a side's king standing on (kr, kf).
pub open spec fn king_safety(m: BoardModel, kr: int, kf: int, color: Color) -> int {
    pawn_shield(m, kr, kf, color) + open_files_penalty(m, kf, color) + attack_danger(m, kr, kf, color)
        + exposed_king_penalty(m, kr, kf, color)
}

pub open spec fn side_safety(m: BoardModel, color: Color) -> int {
    match m.king_square(color) {
        Some(k) => king_safety(m, k.0 as int, k.1 as int, color),
        None => 0,
    }
}

/// White's king safety less black's, from the side to move's point of view.
pub open spec fn king_safety_eval(m: BoardModel) -> int {
    perspective(m, side_safety(m, Color::White) - side_safety(m, Color::Black))
}

proof fn lemma_units_at_bounds(m: BoardModel, r: int, f: int, p: Piece, ts: Seq<(usize, usize)>, n: int)
    requires
        0 <= n,
    ensures
        0 <= units_at(m, r, f, p, ts, n) <= 16 * n,
    decreases n,
{
    if n > 0 {
        lemma_units_at_bounds(m, r, f, p, ts, n - 1);
    }
}

proof fn lemma_ring_len(kr: int, kf: int, n: int)
    requires
        0 <= n <= 8,
    ensures
        1 <= ring(kr, kf, n).len() <= n + 1,
    decreases n,
{
    if n > 0 {
        lemma_ring_len(kr, kf, n - 1);
    }
}

proof fn lemma_escapes_bounds(m: BoardModel, enemy: Color, ts: Seq<(usize, usize)>, n: int)
    ensures
        0 <= escapes(m, enemy, ts, n),
        n >= 1 ==> escapes(m, enemy, ts, n) <= n - 1,
    decreases n,
{
    if n > 1 {
        lemma_escapes_bounds(m, enemy, ts, n - 1);
    }
}

proof fn lemma_unit_sums(m: BoardModel, enemy: Color, ts: Seq<(usize, usize)>, n: int)
    requires
        0 <= n <= 64,
        ts.len() <= 9,
    ensures
        0 <= board_sum(m, n, units_fn(m, enemy, ts)) <= n * 144,
{
    assert forall|p: Piece, r: int, f: int| 0 <= #[trigger] units_fn(m, enemy, ts)(p, r, f) <= 144 by {
        lemma_units_at_bounds(m, r, f, p, ts, ts.len() as int);
    }
    lemma_board_sum_bounds(m, n, units_fn(m, enemy, ts), 0, 144);
}

proof fn lemma_count_sums(m: BoardModel, n: int, v: spec_fn(Piece, int, int) -> int)
    requires
        0 <= n <= 64,
        forall|p: Piece, r: int, f: int| 0 <= #[trigger] v(p, r, f) <= 1,
    ensures
        0 <= board_sum(m, n, v) <= n,
{
    lemma_board_sum_bounds(m, n, v, 0, 1);
}

proof fn lemma_attack_ind_bounds(m: BoardModel, enemy: Color, tr: int, tf: int)
    ensures
        forall|p: Piece, r: int, f: int| 0 <= #[trigger] attack_ind_fn(m, enemy, tr, tf)(p, r, f) <= 1,
{
}

fn zone_offset(i: usize) -> (o: (i32, i32))
    requires
        i < 8,
    ensures
        o.0 == king_offset(i as int).0,
        o.1 == king_offset(i as int).1,
{
    match i {
        0 => (-1, -1),
        1 => (-1, 0),
        2 => (-1, 1),
        3 => (0, -1),
        4 => (0, 1),
        5 => (1, -1),
        6 => (1, 0),
        _ => (1, 1),
    }
}

/// The king's square and its neighbours on the board.
fn zone_squares(king_pos: (usize, usize)) -> (ts: Vec<(usize, usize)>)
    requires
        on_board(king_pos.0 as int, king_pos.1 as int),
    ensures
        ts@ == king_zone(king_pos.0 as int, king_pos.1 as int),
        1 <= ts@.len() <= 9,
        forall|i: int| 0 <= i < ts@.len() ==> on_board(#[trigger] ts@[i].0 as int, ts@[i].1 as int),
{
    let ghost (kr, kf) = (king_pos.0 as int, king_pos.1 as int);
    let mut ts: Vec<(usize, usize)> = Vec::new();
    ts.push(king_pos);
    let mut i: usize = 0;
    while i < 8
        invariant
            i <= 8,
            kr == king_pos.0 as int,
            kf == king_pos.1 as int,
            on_board(kr, kf),
            ts@ == ring(kr, kf, i as int),
            forall|j: int| 0 <= j < ts@.len() ==> on_board(#[trigger] ts@[j].0 as int, ts@[j].1 as int),
        decreases 8 - i,
    {
        let (dr, df) = zone_offset(i);
        let r: i32 = king_pos.0 as i32 + dr;
        let f: i32 = king_pos.1 as i32 + df;
        if r >= 0 && r < 8 && f >= 0 && f < 8 {
            ts.push((r as usize, f as usize));
        }
        i = i + 1;
    }
    proof {
        lemma_ring_len(kr, kf, 8);
    }
    ts
}

/// The number of enemy pieces attacking a square is positive.
fn attacked_by(board: &Board, enemy: Color, target: (usize, usize)) -> (r: bool)
    requires
        on_board(target.0 as int, target.1 as int),
    ensures
        r == (attackers(board@, enemy, target.0 as int, target.1 as int) > 0),
{
    let ghost m = board@;
    let ghost v = attack_ind_fn(m, enemy, target.0 as int, target.1 as int);
    let mut count: u32 = 0;
    let mut i: usize = 0;
    while i < 64
        invariant
            i <= 64,
            m == board@,
            v == attack_ind_fn(m, enemy, target.0 as int, target.1 as int),
            on_board(target.0 as int, target.1 as int),
            count == board_sum(m, i as int, v),
        decreases 64 - i,
    {
        let rank = i / 8;
        let file = i % 8;
        proof {
            lemma_attack_ind_bounds(m, enemy, target.0 as int, target.1 as int);
            lemma_count_sums(m, i as int, v);
        }
        let sq = board.squares[rank][file];
        if sq != Piece::Empty && is_white(sq) == (enemy == Color::White) {
            if KingSafety::attacks_square(board, (rank, file), sq, target) {
                count = count + 1;
            }
        }
        i = i + 1;
    }
    count > 0
}

/// The number of safe escape squares in the king zone.
fn safe_escape_squares(board: &Board, enemy: Color, targets: &Vec<(usize, usize)>) -> (n: i32)
    requires
        targets@.len() <= 9,
        forall|i: int| 0 <= i < targets@.len() ==> on_board(#[trigger] targets@[i].0 as int, targets@[i].1 as int),
    ensures
        n == escapes(board@, enemy, targets@, targets@.len() as int),
{
    let ghost m = board@;
    let mut safe: i32 = 0;
    let mut idx: usize = 1;
    if targets.len() == 0 {
        return 0;
    }
    while idx < targets.len()
        invariant
            1 <= idx <= targets@.len() <= 9,
            m == board@,
            forall|i: int| 0 <= i < targets@.len() ==> on_board(#[trigger] targets@[i].0 as int, targets@[i].1 as int),
            safe == escapes(m, enemy, targets@, idx as int),
        decreases targets@.len() - idx,
    {
        proof {
            lemma_escapes_bounds(m, enemy, targets@, idx as int);
        }
        let t = targets[idx];
        let empty = board.squares[t.0][t.1] == Piece::Empty;
        if empty {
            let hit = attacked_by(board, enemy, t);
            if !hit {
                safe = safe + 1;
            }
        }
        proof {
            lemma_count_sums(m, 64, attack_ind_fn(m, enemy, t.0 as int, t.1 as int));
            assert(escapes(m, enemy, targets@, idx + 1) == escapes(m, enemy, targets@, idx as int)
                + if m.at(t.0 as int, t.1 as int) == Piece::Empty
                    && attackers(m, enemy, t.0 as int, t.1 as int) == 0 { 1int } else { 0int });
        }
        idx = idx + 1;
    }
    safe
}

pub struct KingSafety;

impl KingSafety {
    /// White's king safety less black's, from the side to move's point of view;
    /// a side without a king counts zero.
    pub fn evaluate(board: &Board) -> (s: Score)
        ensures
            s == king_safety_eval(board@),
            -262 <= s <= 262,
    {
        let white_king = Self::find_king(board, Color::White);
        let black_king = Self::find_king(board, Color::Black);
        let white_safety = match white_king {
            Some(k) => Self::evaluate_king_safety(board, Color::White, k),
            None => 0,
        };
        let black_safety = match black_king {
            Some(k) => Self::evaluate_king_safety(board, Color::Black, k),
            None => 0,
        };
        side_to_move_perspective(board, white_safety - black_safety)
    }

    /// The square of a side's king: the first in rank-major order.
    pub fn find_king(board: &Board, color: Color) -> (r: Option<(usize, usize)>)
        ensures
            r == board@.king_square(color),
            r matches Some(k) ==> on_board(k.0 as int, k.1 as int),
    {
        proof {
            crate::board::movegen::lemma_find_on_board(board@, king_of(color), 0);
        }
        board.find_king(color)
    }

    /// The safety of a side's king on a square: pawn shield, open files, attack
    /// danger and exposure.
    pub fn evaluate_king_safety(board: &Board, color: Color, king_pos: (usize, usize)) -> (s: Score)
        requires
            on_board(king_pos.0 as int, king_pos.1 as int),
        ensures
            s == king_safety(board@, king_pos.0 as int, king_pos.1 as int, color),
            -216 <= s <= 46,
    {
        let mut score: i32 = 0;
        score = score + Self::pawn_shield(board, king_pos, color);
        score = score + Self::open_files_penalty(board, king_pos, color);
        score = score + Self::attack_danger(board, king_pos, color);
        score = score + Self::exposed_king_penalty(board, king_pos, color);
        score
    }

    fn shield_square(board: &Board, king_pos: (usize, usize), color: Color, ring: i32, df: i32) -> (s: i32)
        requires
            on_board(king_pos.0 as int, king_pos.1 as int),
            ring == 1 || ring == 2,
            -1 <= df <= 1,
        ensures
            s == shield_term(board@, king_pos.0 as int, king_pos.1 as int, color, ring as int, df as int),
    {
        let pawn = match color {
            Color::White => Piece::WhitePawn,
            Color::Black => Piece::BlackPawn,
        };
        let r: i32 = match color {
            Color::White => king_pos.0 as i32 - ring,
            Color::Black => king_pos.0 as i32 + ring,
        };
        let f: i32 = king_pos.1 as i32 + df;
        if r >= 0 && r < 8 && f >= 0 && f < 8 && board.squares[r as usize][f as usize] == pawn {
            if ring == 1 { 15 } else { 8 }
        } else {
            0
        }
    }

    /// Own pawns one and two ranks in front of the king on its three files.
    pub fn pawn_shield(board: &Board, king_pos: (usize, usize), color: Color) -> (s: Score)
        requires
            on_board(king_pos.0 as int, king_pos.1 as int),
        ensures
            s == pawn_shield(board@, king_pos.0 as int, king_pos.1 as int, color),
            0 <= s <= 46,
    {
        let mut score: i32 = 0;
        score = score + Self::shield_square(board, king_pos, color, 1, -1);
        score = score + Self::shield_square(board, king_pos, color, 1, 0);
        score = score + Self::shield_square(board, king_pos, color, 1, 1);
        score = score + Self::shield_square(board, king_pos, color, 2, -1);
        score = score + Self::shield_square(board, king_pos, color, 2, 0);
        score = score + Self::shield_square(board, king_pos, color, 2, 1);
        if score > 46 { 46 } else { score }
    }

    pub(crate) fn file_has_pawn(board: &Board, file: usize, pawn: Piece) -> (r: bool)
        requires
            file < 8,
        ensures
            r == file_has(board@, file as int, pawn),
    {
        let mut rank: usize = 0;
        while rank < 8
            invariant
                rank <= 8,
                file < 8,
                forall|r: int| 0 <= r < rank ==> #[trigger] board@.at(r, file as int) != pawn,
            decreases 8 - rank,
        {
            if board.squares[rank][file] == pawn {
                assert(board@.at(rank as int, file as int) == pawn);
                return true;
            }
            rank = rank + 1;
        }
        false
    }

    /// A penalty for each of the king's file and its neighbours that has no own pawn.
    pub fn open_files_penalty(board: &Board, king_pos: (usize, usize), color: Color) -> (s: Score)
        requires
            on_board(king_pos.0 as int, king_pos.1 as int),
        ensures
            s == open_files_penalty(board@, king_pos.1 as int, color),
            -26 <= s <= 0,
    {
        let pawn = match color {
            Color::White => Piece::WhitePawn,
            Color::Black => Piece::BlackPawn,
        };
        let kf = king_pos.1 as i32;
        let mut penalty: i32 = 0;
        let mut df: i32 = -1;
        while df <= 1
            invariant
                -1 <= df <= 2,
                kf == king_pos.1 as int,
                0 <= kf < 8,
                pawn == pawn_of(color),
                penalty == (if df > -1 { file_penalty(board@, kf as int, color, -1) } else { 0 })
                    + (if df > 0 { file_penalty(board@, kf as int, color, 0) } else { 0 })
                    + (if df > 1 { file_penalty(board@, kf as int, color, 1) } else { 0 }),
            decreases 2 - df,
        {
            let f = kf + df;
            if f >= 0 && f < 8 {
                if !Self::file_has_pawn(board, f as usize, pawn) {
                    penalty = penalty + if df == 0 { 12 } else { 7 };
                }
            }
            df = df + 1;
        }
        -penalty
    }

    /// Whether the piece on `from` attacks `target`, whoever is to move; sliding
    /// pieces need an empty line in between.
    pub fn attacks_square(board: &Board, from: (usize, usize), piece: Piece, target: (usize, usize)) -> (r: bool)
        requires
            on_board(from.0 as int, from.1 as int),
            on_board(target.0 as int, target.1 as int),
        ensures
            r == hits(board@, from.0 as int, from.1 as int, piece, target.0 as int, target.1 as int),
    {
        let dr: i32 = target.0 as i32 - from.0 as i32;
        let df: i32 = target.1 as i32 - from.1 as i32;
        let ar: i32 = if dr < 0 { -dr } else { dr };
        let af: i32 = if df < 0 { -df } else { df };
        match piece {
            Piece::WhitePawn => ar == 1 && af == 1 && dr == -1,
            Piece::BlackPawn => ar == 1 && af == 1 && dr == 1,
            Piece::WhiteKnight | Piece::BlackKnight => (ar == 2 && af == 1) || (ar == 1 && af == 2),
            Piece::WhiteBishop | Piece::BlackBishop => ar == af && ar != 0 && board.path_is_clear(from, target),
            Piece::WhiteRook | Piece::BlackRook => (ar == 0 || af == 0) && ar + af > 0
                && board.path_is_clear(from, target),
            Piece::WhiteQueen | Piece::BlackQueen => ((ar == af && ar != 0) || ar == 0 || af == 0) && ar + af > 0
                && board.path_is_clear(from, target),
            Piece::WhiteKing | Piece::BlackKing => ar <= 1 && af <= 1 && (dr != 0 || df != 0),
            Piece::Empty => false,
        }
    }

    /// The enemy attack units on the king zone.
    fn zone_attack_units(board: &Board, enemy: Color, targets: &Vec<(usize, usize)>) -> (u: i32)
        requires
            targets@.len() <= 9,
            forall|i: int| 0 <= i < targets@.len() ==> on_board(#[trigger] targets@[i].0 as int, targets@[i].1 as int),
        ensures
            u == attack_units(board@, enemy, targets@),
            0 <= u <= 64 * 144,
    {
        let ghost m = board@;
        let ghost ts = targets@;
        let mut units: i32 = 0;
        let mut i: usize = 0;
        while i < 64
            invariant
                i <= 64,
                m == board@,
                ts == targets@,
                ts.len() <= 9,
                forall|j: int| 0 <= j < ts.len() ==> on_board(#[trigger] ts[j].0 as int, ts[j].1 as int),
                units == board_sum(m, i as int, units_fn(m, enemy, ts)),
            decreases 64 - i,
        {
            let rank = i / 8;
            let file = i % 8;
            proof {
                lemma_unit_sums(m, enemy, ts, i as int);
                lemma_units_at_bounds(m, rank as int, file as int, m.at(rank as int, file as int), ts, ts.len() as int);
            }
            let sq = board.squares[rank][file];
            if sq != Piece::Empty && is_white(sq) == (enemy == Color::White) {
                let weight: i32 = match sq {
                    Piece::WhitePawn | Piece::BlackPawn => 2,
                    Piece::WhiteKnight | Piece::BlackKnight => 4,
                    Piece::WhiteBishop | Piece::BlackBishop => 4,
                    Piece::WhiteRook | Piece::BlackRook => 5,
                    Piece::WhiteQueen | Piece::BlackQueen => 8,
                    Piece::WhiteKing | Piece::BlackKing => 1,
                    Piece::Empty => 0,
                };
                let mut idx: usize = 0;
                let ghost base = units as int;
                while idx < targets.len()
                    invariant
                        idx <= ts.len(),
                        ts == targets@,
                        ts.len() <= 9,
                        rank < 8,
                        file < 8,
                        sq == m.at(rank as int, file as int),
                        m == board@,
                        weight == attack_weight(sq),
                        forall|j: int| 0 <= j < ts.len() ==> on_board(#[trigger] ts[j].0 as int, ts[j].1 as int),
                        0 <= base <= 64 * 144,
                        units == base + units_at(m, rank as int, file as int, sq, ts, idx as int),
                    decreases ts.len() - idx,
                {
                    proof {
                        lemma_units_at_bounds(m, rank as int, file as int, sq, ts, idx as int);
                    }
                    if Self::attacks_square(board, (rank, file), sq, targets[idx]) {
                        let mult: i32 = if idx == 0 { 2 } else { 1 };
                        units = units + weight * mult;
                    }
                    idx = idx + 1;
                }
            }
            i = i + 1;
        }
        proof {
            lemma_unit_sums(m, enemy, ts, 64);
        }
        units
    }

    /// The number of own pieces other than the king within two squares of it.
    fn guard_count(board: &Board, color: Color, king_pos: (usize, usize)) -> (n: i32)
        requires
            on_board(king_pos.0 as int, king_pos.1 as int),
        ensures
            n == board_sum(board@, 64, guard_fn(board@, color, king_pos.0 as int, king_pos.1 as int)),
            0 <= n <= 64,
    {
        let ghost m = board@;
        let ghost v = guard_fn(m, color, king_pos.0 as int, king_pos.1 as int);
        let kr = king_pos.0 as i32;
        let kf = king_pos.1 as i32;
        let king = Self::color_king(color);
        let mut count: i32 = 0;
        let mut i: usize = 0;
        while i < 64
            invariant
                i <= 64,
                m == board@,
                kr == king_pos.0 as int,
                kf == king_pos.1 as int,
                king == king_of(color),
                v == guard_fn(m, color, king_pos.0 as int, king_pos.1 as int),
                count == board_sum(m, i as int, v),
            decreases 64 - i,
        {
            let rank = i / 8;
            let file = i % 8;
            proof {
                lemma_count_sums(m, i as int, v);
            }
            let sq = board.squares[rank][file];
            if sq != Piece::Empty && is_white(sq) == (color == Color::White) {
                let a: i32 = rank as i32 - kr;
                let b: i32 = file as i32 - kf;
                let ar: i32 = if a < 0 { -a } else { a };
                let af: i32 = if b < 0 { -b } else { b };
                let d: i32 = if ar >= af { ar } else { af };
                if d > 0 && d <= 2 && sq != king {
                    count = count + 1;
                }
            }
            i = i + 1;
        }
        proof {
            lemma_count_sums(m, 64, v);
        }
        count
    }

    /// Whether an enemy queen (or rook) stands within `reach` squares of the king.
    fn enemy_near(board: &Board, enemy: Color, king_pos: (usize, usize), queen: bool, reach: i32) -> (r: bool)
        requires
            on_board(king_pos.0 as int, king_pos.1 as int),
        ensures
            r == (board_sum(board@, 64, near_fn(board@, enemy, king_pos.0 as int, king_pos.1 as int, queen, reach as int)) > 0),
    {
        let ghost m = board@;
        let ghost v = near_fn(m, enemy, king_pos.0 as int, king_pos.1 as int, queen, reach as int);
        let kr = king_pos.0 as i32;
        let kf = king_pos.1 as i32;
        let mut count: i32 = 0;
        let mut i: usize = 0;
        while i < 64
            invariant
                i <= 64,
                m == board@,
                kr == king_pos.0 as int,
                kf == king_pos.1 as int,
                v == near_fn(m, enemy, king_pos.0 as int, king_pos.1 as int, queen, reach as int),
                count == board_sum(m, i as int, v),
            decreases 64 - i,
        {
            let rank = i / 8;
            let file = i % 8;
            proof {
                lemma_count_sums(m, i as int, v);
            }
            let sq = board.squares[rank][file];
            if sq != Piece::Empty && is_white(sq) == (enemy == Color::White) {
                let a: i32 = rank as i32 - kr;
                let b: i32 = file as i32 - kf;
                let ar: i32 = if a < 0 { -a } else { a };
                let af: i32 = if b < 0 { -b } else { b };
                let d: i32 = if ar >= af { ar } else { af };
                let kind = if queen {
                    sq == Piece::WhiteQueen || sq == Piece::BlackQueen
                } else {
                    sq == Piece::WhiteRook || sq == Piece::BlackRook
                };
                if kind && d <= reach {
                    count = count + 1;
                }
            }
            i = i + 1;
        }
        count > 0
    }

    /// Attack-based king danger: the enemy attack units on the king and its escape
    /// squares less the defence, raised by nearby enemy queens and rooks, a check and
    /// a king without a safe escape square; between -120 and 0.
    pub fn attack_danger(board: &Board, king_pos: (usize, usize), color: Color) -> (s: Score)
        requires
            on_board(king_pos.0 as int, king_pos.1 as int),
        ensures
            s == attack_danger(board@, king_pos.0 as int, king_pos.1 as int, color),
            -120 <= s <= 0,
    {
        let enemy = match color {
            Color::White => Color::Black,
            Color::Black => Color::White,
        };
        let targets = zone_squares(king_pos);
        let attack_units = Self::zone_attack_units(board, enemy, &targets);
        let mut guard: i32 = Self::pawn_shield(board, king_pos, color) + 6 * Self::guard_count(board, color, king_pos);
        if guard > 80 {
            guard = 80;
        }
        let mut danger: i32 = attack_units - guard;
        if danger < 0 {
            danger = 0;
        }
        if danger > 120 {
            danger = 120;
        }
        if Self::enemy_near(board, enemy, king_pos, true, 3) {
            danger = if danger + 6 > 120 { 120 } else { danger + 6 };
        }
        if Self::enemy_near(board, enemy, king_pos, false, 4) {
            danger = if danger + 5 > 120 { 120 } else { danger + 5 };
        }
        if attacked_by(board, enemy, king_pos) {
            danger = if danger + 15 > 120 { 120 } else { danger + 15 };
        }
        if safe_escape_squares(board, enemy, &targets) == 0 {
            danger = if danger + 35 > 120 { 120 } else { danger + 35 };
        }
        -danger
    }

    fn color_king(color: Color) -> (p: Piece)
        ensures
            p == king_of(color),
    {
        match color {
            Color::White => Piece::WhiteKing,
            Color::Black => Piece::BlackKing,
        }
    }

    /// Whether every escape square of the king is occupied or attacked by the enemy.
    pub fn has_no_escape_squares(board: &Board, king_pos: (usize, usize), color: Color) -> (r: bool)
        requires
            on_board(king_pos.0 as int, king_pos.1 as int),
        ensures
            r == (escapes(board@, opposite(color), king_zone(king_pos.0 as int, king_pos.1 as int),
                king_zone(king_pos.0 as int, king_pos.1 as int).len() as int) == 0),
    {
        let enemy = match color {
            Color::White => Color::Black,
            Color::Black => Color::White,
        };
        let targets = zone_squares(king_pos);
        safe_escape_squares(board, enemy, &targets) == 0
    }

    /// The penalty for a king that leaves its back rank while much material remains.
    pub fn exposed_king_penalty(board: &Board, king_pos: (usize, usize), color: Color) -> (s: Score)
        requires
            on_board(king_pos.0 as int, king_pos.1 as int),
        ensures
            s == exposed_king_penalty(board@, king_pos.0 as int, king_pos.1 as int, color),
            -70 <= s <= 0,
    {
        proof {
            lemma_material_bounds(board@);
        }
        let (white_mat, black_mat) = MaterialEvaluation::material_count(board);
        if white_mat + black_mat < 2600 {
            return 0;
        }
        let kr = king_pos.0 as i32;
        let kf = king_pos.1;
        let dist_from_back: i32 = match color {
            Color::White => 7 - kr,
            Color::Black => kr,
        };
        let rights = match color {
            Color::White => board.castling_rights.white_kingside || board.castling_rights.white_queenside,
            Color::Black => board.castling_rights.black_kingside || board.castling_rights.black_queenside,
        };
        if dist_from_back == 0 {
            if !rights && (kf == 3 || kf == 4) {
                return -20;
            }
            return 0;
        }
        if rights {
            return if 12 * dist_from_back > 40 { -40 } else { -(12 * dist_from_back) };
        }
        if 18 * dist_from_back > 70 { -70 } else { -(18 * dist_from_back) }
    }
}

} // verus!
