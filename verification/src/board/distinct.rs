use vstd::prelude::*;
use vstd::seq_lib::lemma_no_dup_in_concat;
use crate::board::board::{BoardModel, on_board, abs, sign};
use crate::board::chess_move::{ChessMove, MoveType};
use crate::board::movegen::{lemma_keep_legal, knight_offset, king_offset, bishop_dir, rook_dir, promotion_pieces, promotion_moves};

verus! {

/// Every move of the list starts on (r, f).
pub open spec fn from_square(s: Seq<ChessMove>, r: int, f: int) -> bool {
    forall|i: int| 0 <= i < s.len() ==> (#[trigger] s[i]).from == (r as usize, f as usize)
}

/// Every move of the list is a plain move onto the board.
pub open spec fn plain_on_board(s: Seq<ChessMove>) -> bool {
    forall|i: int| 0 <= i < s.len() ==> (#[trigger] s[i]).move_type == MoveType::Normal
        && on_board(s[i].to.0 as int, s[i].to.1 as int)
}

/// The position of a jump among the eight knight jumps (8 for none of them).
pub open spec fn knight_index(a: int, b: int) -> int {
    if (a, b) == knight_offset(0) { 0 }
    else if (a, b) == knight_offset(1) { 1 }
    else if (a, b) == knight_offset(2) { 2 }
    else if (a, b) == knight_offset(3) { 3 }
    else if (a, b) == knight_offset(4) { 4 }
    else if (a, b) == knight_offset(5) { 5 }
    else if (a, b) == knight_offset(6) { 6 }
    else if (a, b) == knight_offset(7) { 7 }
    else { 8 }
}

/// The position of a step among the eight king steps (8 for none of them).
pub open spec fn king_index(a: int, b: int) -> int {
    if (a, b) == king_offset(0) { 0 }
    else if (a, b) == king_offset(1) { 1 }
    else if (a, b) == king_offset(2) { 2 }
    else if (a, b) == king_offset(3) { 3 }
    else if (a, b) == king_offset(4) { 4 }
    else if (a, b) == king_offset(5) { 5 }
    else if (a, b) == king_offset(6) { 6 }
    else if (a, b) == king_offset(7) { 7 }
    else { 8 }
}

/// The position of a direction among the four diagonals (4 for none of them).
pub open spec fn diagonal_index(a: int, b: int) -> int {
    if (a, b) == bishop_dir(0) { 0 }
    else if (a, b) == bishop_dir(1) { 1 }
    else if (a, b) == bishop_dir(2) { 2 }
    else if (a, b) == bishop_dir(3) { 3 }
    else { 4 }
}

/// The position of a direction among the four straight lines (4 for none of them).
pub open spec fn straight_index(a: int, b: int) -> int {
    if (a, b) == rook_dir(0) { 0 }
    else if (a, b) == rook_dir(1) { 1 }
    else if (a, b) == rook_dir(2) { 2 }
    else if (a, b) == rook_dir(3) { 3 }
    else { 4 }
}

/// One of the eight directions of a queen.
pub open spec fn unit_dir(dr: int, df: int) -> bool {
    -1 <= dr <= 1 && -1 <= df <= 1 && (dr != 0 || df != 0)
}

/// How far a target lies from (r, f) along a direction.
pub open spec fn along(r: int, f: int, t: (usize, usize), dr: int, df: int) -> int {
    if dr != 0 { abs(t.0 - r) } else { abs(t.1 - f) }
}

/// The targets of a list lie in direction (dr, df) from (r, f), at least `k` squares away.
pub open spec fn on_ray(s: Seq<ChessMove>, r: int, f: int, dr: int, df: int, k: int) -> bool {
    forall|i: int| 0 <= i < s.len() ==> sign((#[trigger] s[i]).to.0 - r) == dr && sign(s[i].to.1 - f) == df
        && along(r, f, s[i].to, dr, df) >= k
}

proof fn lemma_single(x: ChessMove)
    ensures
        seq![x].no_duplicates(),
{
}

proof fn lemma_knight_prefix(m: BoardModel, r: int, f: int, n: int)
    requires
        0 <= n <= 8,
    ensures
        m.knight_prefix(r, f, n).no_duplicates(),
        from_square(m.knight_prefix(r, f, n), r, f),
        plain_on_board(m.knight_prefix(r, f, n)),
        forall|i: int| 0 <= i < m.knight_prefix(r, f, n).len() ==>
            knight_index((#[trigger] m.knight_prefix(r, f, n)[i]).to.0 - r, m.knight_prefix(r, f, n)[i].to.1 - f) < n,
    decreases n,
{
    if n > 0 {
        lemma_knight_prefix(m, r, f, n - 1);
        let a = m.knight_prefix(r, f, n - 1);
        let o = knight_offset(n - 1);
        let b = m.offset_move(r, f, o);
        assert(knight_index(o.0, o.1) == n - 1);
        if b.len() > 0 {
            lemma_single(b[0]);
        }
        lemma_no_dup_in_concat(a, b);
        assert(m.knight_prefix(r, f, n) == a + b);
    }
}

proof fn lemma_king_steps(m: BoardModel, r: int, f: int, n: int)
    requires
        0 <= n <= 8,
    ensures
        m.king_step_prefix(r, f, n).no_duplicates(),
        from_square(m.king_step_prefix(r, f, n), r, f),
        plain_on_board(m.king_step_prefix(r, f, n)),
        forall|i: int| 0 <= i < m.king_step_prefix(r, f, n).len() ==>
            king_index((#[trigger] m.king_step_prefix(r, f, n)[i]).to.0 - r, m.king_step_prefix(r, f, n)[i].to.1 - f) < n,
    decreases n,
{
    if n > 0 {
        lemma_king_steps(m, r, f, n - 1);
        let a = m.king_step_prefix(r, f, n - 1);
        let o = king_offset(n - 1);
        let b = m.offset_move(r, f, o);
        assert(king_index(o.0, o.1) == n - 1);
        if b.len() > 0 {
            lemma_single(b[0]);
        }
        lemma_no_dup_in_concat(a, b);
        assert(m.king_step_prefix(r, f, n) == a + b);
    }
}

proof fn lemma_ray(m: BoardModel, piece: crate::board::pieces::Piece, r: int, f: int, dr: int, df: int, k: int)
    requires
        unit_dir(dr, df),
        k >= 1,
    ensures
        m.ray(piece, r, f, dr, df, k).no_duplicates(),
        from_square(m.ray(piece, r, f, dr, df, k), r, f),
        plain_on_board(m.ray(piece, r, f, dr, df, k)),
        on_ray(m.ray(piece, r, f, dr, df, k), r, f, dr, df, k),
    decreases 8 - k,
{
    if k < 8 {
        lemma_ray(m, piece, r, f, dr, df, k + 1);
        let s = m.ray(piece, r, f, dr, df, k);
        let t = m.ray(piece, r, f, dr, df, k + 1);
        if s.len() > 0 {
            let h = s[0];
            lemma_single(h);
            assert(sign(h.to.0 - r) == dr && sign(h.to.1 - f) == df && along(r, f, h.to, dr, df) == k);
            if s.len() > 1 {
                assert(s == seq![h] + t);
                lemma_no_dup_in_concat(seq![h], t);
            }
        }
    }
}

proof fn lemma_diagonals(m: BoardModel, r: int, f: int, n: int)
    requires
        0 <= n <= 4,
    ensures
        m.bishop_prefix(r, f, n).no_duplicates(),
        from_square(m.bishop_prefix(r, f, n), r, f),
        plain_on_board(m.bishop_prefix(r, f, n)),
        forall|i: int| 0 <= i < m.bishop_prefix(r, f, n).len() ==>
            diagonal_index(sign((#[trigger] m.bishop_prefix(r, f, n)[i]).to.0 - r), sign(m.bishop_prefix(r, f, n)[i].to.1 - f)) < n,
    decreases n,
{
    if n > 0 {
        lemma_diagonals(m, r, f, n - 1);
        let a = m.bishop_prefix(r, f, n - 1);
        let d = bishop_dir(n - 1);
        let b = m.ray(m.at(r, f), r, f, d.0, d.1, 1);
        lemma_ray(m, m.at(r, f), r, f, d.0, d.1, 1);
        assert(diagonal_index(d.0, d.1) == n - 1);
        lemma_no_dup_in_concat(a, b);
        assert(m.bishop_prefix(r, f, n) == a + b);
    }
}

proof fn lemma_straights(m: BoardModel, r: int, f: int, n: int)
    requires
        0 <= n <= 4,
    ensures
        m.rook_prefix(r, f, n).no_duplicates(),
        from_square(m.rook_prefix(r, f, n), r, f),
        plain_on_board(m.rook_prefix(r, f, n)),
        forall|i: int| 0 <= i < m.rook_prefix(r, f, n).len() ==>
            straight_index(sign((#[trigger] m.rook_prefix(r, f, n)[i]).to.0 - r), sign(m.rook_prefix(r, f, n)[i].to.1 - f)) < n,
    decreases n,
{
    if n > 0 {
        lemma_straights(m, r, f, n - 1);
        let a = m.rook_prefix(r, f, n - 1);
        let d = rook_dir(n - 1);
        let b = m.ray(m.at(r, f), r, f, d.0, d.1, 1);
        lemma_ray(m, m.at(r, f), r, f, d.0, d.1, 1);
        assert(straight_index(d.0, d.1) == n - 1);
        lemma_no_dup_in_concat(a, b);
        assert(m.rook_prefix(r, f, n) == a + b);
    }
}

/// The file offset of a move's target from file `f`, and whether it takes en passant:
/// pushes, the two captures and the two en passant captures of a pawn differ in it.
pub open spec fn pawn_tag(mv: ChessMove, f: int) -> (int, bool) {
    (mv.to.1 - f, mv.move_type is EnPassant)
}

pub open spec fn tagged(s: Seq<ChessMove>, f: int, tag: (int, bool)) -> bool {
    forall|i: int| 0 <= i < s.len() ==> pawn_tag(#[trigger] s[i], f) == tag
}

proof fn lemma_promotions(r: int, f: int, tr: int, tf: int, w: bool)
    ensures
        promotion_moves(r, f, tr, tf, w).no_duplicates(),
        promotion_moves(r, f, tr, tf, w).len() == 4,
        from_square(promotion_moves(r, f, tr, tf, w), r, f),
        forall|i: int| 0 <= i < 4 ==> (#[trigger] promotion_moves(r, f, tr, tf, w)[i]).to == (tr as usize, tf as usize)
            && promotion_moves(r, f, tr, tf, w)[i].move_type is Promotion,
{
    let p = promotion_pieces(w);
    let s = promotion_moves(r, f, tr, tf, w);
    assert forall|i: int, j: int| 0 <= i < s.len() && 0 <= j < s.len() && i != j implies s[i] != s[j] by {
        assert(s[i].move_type == MoveType::Promotion(p[i]));
        assert(s[j].move_type == MoveType::Promotion(p[j]));
        assert(p[i] != p[j]);
    }
}

proof fn lemma_pawn_pushes(m: BoardModel, r: int, f: int)
    requires
        on_board(r, f),
        m.at(r, f) == crate::board::pieces::Piece::WhitePawn || m.at(r, f) == crate::board::pieces::Piece::BlackPawn,
    ensures
        m.pawn_pushes(r, f).no_duplicates(),
        from_square(m.pawn_pushes(r, f), r, f),
        tagged(m.pawn_pushes(r, f), f, (0, false)),
{
    let w = m.at(r, f) == crate::board::pieces::Piece::WhitePawn;
    let dir: int = if w { -1 } else { 1 };
    lemma_promotions(r, f, r + dir, f, w);
}

proof fn lemma_pawn_capture(m: BoardModel, r: int, f: int, off: int)
    requires
        on_board(r, f),
        off == -1 || off == 1,
    ensures
        m.pawn_capture(r, f, off).no_duplicates(),
        from_square(m.pawn_capture(r, f, off), r, f),
        tagged(m.pawn_capture(r, f, off), f, (off, false)),
{
    let w = m.at(r, f) == crate::board::pieces::Piece::WhitePawn;
    let dir: int = if w { -1 } else { 1 };
    lemma_promotions(r, f, r + dir, f + off, w);
    let s = m.pawn_capture(r, f, off);
    if s.len() == 1 {
        lemma_single(s[0]);
    }
}

proof fn lemma_pawn_en_passant(m: BoardModel, r: int, f: int, off: int)
    requires
        on_board(r, f),
        off == -1 || off == 1,
    ensures
        m.pawn_en_passant(r, f, off).no_duplicates(),
        from_square(m.pawn_en_passant(r, f, off), r, f),
        tagged(m.pawn_en_passant(r, f, off), f, (off, true)),
{
    let s = m.pawn_en_passant(r, f, off);
    if s.len() > 0 {
        lemma_single(s[0]);
    }
}

proof fn lemma_pawn(m: BoardModel, r: int, f: int)
    requires
        on_board(r, f),
    ensures
        m.pawn_moves(r, f).no_duplicates(),
        from_square(m.pawn_moves(r, f), r, f),
{
    let piece = m.at(r, f);
    if piece == crate::board::pieces::Piece::WhitePawn || piece == crate::board::pieces::Piece::BlackPawn {
        let pu = m.pawn_pushes(r, f);
        let cl = m.pawn_capture(r, f, -1);
        let cr = m.pawn_capture(r, f, 1);
        let el = m.pawn_en_passant(r, f, -1);
        let er = m.pawn_en_passant(r, f, 1);
        lemma_pawn_pushes(m, r, f);
        lemma_pawn_capture(m, r, f, -1);
        lemma_pawn_capture(m, r, f, 1);
        lemma_pawn_en_passant(m, r, f, -1);
        lemma_pawn_en_passant(m, r, f, 1);
        lemma_no_dup_in_concat(pu, cl);
        lemma_no_dup_in_concat(pu + cl, cr);
        lemma_no_dup_in_concat(pu + cl + cr, el);
        lemma_no_dup_in_concat(pu + cl + cr + el, er);
    }
}

proof fn lemma_king(m: BoardModel, r: int, f: int)
    ensures
        m.king_moves(r, f).no_duplicates(),
        from_square(m.king_moves(r, f), r, f),
{
    lemma_king_steps(m, r, f, 8);
    let a = m.king_step_prefix(r, f, 8);
    let c = m.castling_moves(r, f);
    assert forall|i: int| 0 <= i < c.len() implies (#[trigger] c[i]).move_type == MoveType::Castling
        && c[i].from == (r as usize, f as usize) by {}
    assert(c.no_duplicates());
    lemma_no_dup_in_concat(a, c);
}

proof fn lemma_square(m: BoardModel, r: int, f: int)
    requires
        on_board(r, f),
    ensures
        m.square_moves(r, f).no_duplicates(),
        from_square(m.square_moves(r, f), r, f),
{
    let p = m.at(r, f);
    lemma_pawn(m, r, f);
    lemma_knight_prefix(m, r, f, 8);
    lemma_diagonals(m, r, f, 4);
    lemma_straights(m, r, f, 4);
    lemma_king(m, r, f);
    let b = m.bishop_moves(r, f);
    let q = m.rook_moves(r, f);
    assert forall|i: int, j: int| 0 <= i < b.len() && 0 <= j < q.len() implies b[i] != q[j] by {
        assert(diagonal_index(sign(b[i].to.0 - r), sign(b[i].to.1 - f)) < 4);
        assert(straight_index(sign(q[j].to.0 - r), sign(q[j].to.1 - f)) < 4);
    }
    lemma_no_dup_in_concat(b, q);
}

/// The square index, in rank-major order, that a move starts from.
pub open spec fn from_index(mv: ChessMove) -> int {
    mv.from.0 * 8 + mv.from.1
}

proof fn lemma_pseudo_prefix(m: BoardModel, n: int)
    requires
        0 <= n <= 64,
    ensures
        m.pseudo_prefix(n).no_duplicates(),
        forall|i: int| 0 <= i < m.pseudo_prefix(n).len() ==> from_index(#[trigger] m.pseudo_prefix(n)[i]) < n,
    decreases n,
{
    if n > 0 {
        lemma_pseudo_prefix(m, n - 1);
        let a = m.pseudo_prefix(n - 1);
        let r = (n - 1) / 8;
        let f = (n - 1) % 8;
        let b = m.square_moves(r, f);
        lemma_square(m, r, f);
        assert forall|j: int| 0 <= j < b.len() implies from_index(#[trigger] b[j]) == n - 1 by {
            assert(b[j].from == (r as usize, f as usize));
        }
        lemma_no_dup_in_concat(a, b);
        assert(m.pseudo_prefix(n) == a + b);
    }
}

proof fn lemma_kept_distinct(m: BoardModel, s: Seq<ChessMove>)
    requires
        s.no_duplicates(),
    ensures
        m.keep_legal(s).no_duplicates(),
    decreases s.len(),
{
    if s.len() > 0 {
        let t = s.drop_last();
        assert(t.no_duplicates());
        lemma_kept_distinct(m, t);
        lemma_keep_legal(m, t);
        let a = m.keep_legal(t);
        let b: Seq<ChessMove> = if m.legal(s.last()) { seq![s.last()] } else { Seq::empty() };
        if b.len() > 0 {
            lemma_single(b[0]);
        }
        assert forall|i: int, j: int| 0 <= i < a.len() && 0 <= j < b.len() implies a[i] != b[j] by {
            assert(t.contains(a[i]));
            let k = choose|k: int| 0 <= k < t.len() && t[k] == a[i];
            assert(s[k] == t[k]);
        }
        lemma_no_dup_in_concat(a, b);
        assert(m.keep_legal(s) == a + b);
    }
}

/// No move is generated twice: the legal moves of a position are pairwise distinct.
pub proof fn lemma_legal_moves_distinct(m: BoardModel)
    ensures
        m.legal_moves().no_duplicates(),
{
    lemma_pseudo_prefix(m, 64);
    lemma_kept_distinct(m, m.pseudo_moves());
}

} // verus!
