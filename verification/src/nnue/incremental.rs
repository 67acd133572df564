//! The input changes of a move keep an incrementally updated accumulator in step
//! with the position: applied to the inputs of the position before the move, they
//! give the inputs of the position after it.

use vstd::prelude::*;
use vstd::multiset::Multiset;
use crate::board::board::{Board, BoardModel, Color, on_board};
use crate::board::chess_move::{ChessMove, MoveType};
use crate::board::pieces::Piece;
use crate::nnue::features::{feature_of, active_prefix, move_steps, on_step, off_step, rook_steps, en_passant_steps};

verus! {

/// Eight rows of eight squares.
pub open spec fn shaped(m: BoardModel) -> bool {
    m.grid.len() == 8 && forall|i: int| 0 <= i < 8 ==> #[trigger] m.grid[i].len() == 8
}

/// The inputs that a position switches on, counted with multiplicity.
pub open spec fn active_inputs(m: BoardModel) -> Multiset<usize> {
    active_prefix(m, 64).to_multiset()
}

/// Inputs after a list of changes, each switching one input on or off.
pub open spec fn apply_steps(ms: Multiset<usize>, steps: Seq<(usize, bool)>) -> Multiset<usize>
    decreases steps.len(),
{
    if steps.len() == 0 {
        ms
    } else {
        let prev = apply_steps(ms, steps.drop_last());
        if steps.last().1 { prev.insert(steps.last().0) } else { prev.remove(steps.last().0) }
    }
}

/// The inputs after one square's piece is replaced: the old piece's input off, the new one's on.
pub open spec fn swap_in(ms: Multiset<usize>, old: Piece, new: Piece, sq: int) -> Multiset<usize> {
    let a = if old != Piece::Empty { ms.remove(feature_of(old, sq) as usize) } else { ms };
    if new != Piece::Empty { a.insert(feature_of(new, sq) as usize) } else { a }
}

/// Two pieces on two squares switch on the same input only if they are the same piece on the same square.
pub proof fn lemma_feature_injective(p: Piece, s: int, q: Piece, t: int)
    requires
        p != Piece::Empty,
        q != Piece::Empty,
        0 <= s < 64,
        0 <= t < 64,
        feature_of(p, s) == feature_of(q, t),
    ensures
        p == q,
        s == t,
{
}

proof fn lemma_put_prefix(m: BoardModel, r: int, f: int, p: Piece, n: int)
    requires
        shaped(m),
        on_board(r, f),
        0 <= n <= 64,
    ensures
        n <= r * 8 + f ==> active_prefix(m.with_grid(m.put(r, f, p)), n) == active_prefix(m, n),
        n > r * 8 + f ==> active_prefix(m.with_grid(m.put(r, f, p)), n).to_multiset()
            == swap_in(active_prefix(m, n).to_multiset(), m.at(r, f), p, r * 8 + f),
        n > r * 8 + f && m.at(r, f) != Piece::Empty
            ==> active_prefix(m, n).to_multiset().count(feature_of(m.at(r, f), r * 8 + f) as usize) >= 1,
    decreases n,
{
    broadcast use {vstd::multiset::group_multiset_axioms, vstd::seq_lib::to_multiset_build};
    let m2 = m.with_grid(m.put(r, f, p));
    let sq = r * 8 + f;
    if n > 0 {
        lemma_put_prefix(m, r, f, p, n - 1);
        let i = (n - 1) / 8;
        let j = (n - 1) % 8;
        let a = active_prefix(m, n - 1);
        let a2 = active_prefix(m2, n - 1);
        let old = m.at(r, f);
        if n - 1 < sq {
            assert(i != r || j != f);
            assert(m2.at(i, j) == m.at(i, j));
        } else if n - 1 == sq {
            assert(i == r && j == f);
            assert(m2.at(i, j) == p);
            let base = a.to_multiset();
            if old != Piece::Empty {
                let fo = feature_of(old, sq) as usize;
                assert(a.push(fo).to_multiset() =~= base.insert(fo));
                if p != Piece::Empty {
                    let fp = feature_of(p, sq) as usize;
                    assert(a.push(fp).to_multiset() =~= base.insert(fp));
                    assert(base.insert(fp) =~= swap_in(base.insert(fo), old, p, sq));
                } else {
                    assert(base =~= swap_in(base.insert(fo), old, p, sq));
                }
            } else {
                if p != Piece::Empty {
                    let fp = feature_of(p, sq) as usize;
                    assert(a.push(fp).to_multiset() =~= base.insert(fp));
                }
            }
        } else {
            assert(i != r || j != f);
            assert(m2.at(i, j) == m.at(i, j));
            let x = m.at(i, j);
            if x != Piece::Empty {
                let fx = feature_of(x, n - 1) as usize;
                let b = a.to_multiset();
                let b2 = a2.to_multiset();
                assert(a.push(fx).to_multiset() =~= b.insert(fx));
                assert(a2.push(fx).to_multiset() =~= b2.insert(fx));
                assert(b2.insert(fx) =~= swap_in(b.insert(fx), old, p, sq));
            }
        }
    }
}

/// Replacing the piece on one square changes the inputs by that square alone.
pub proof fn lemma_put(m: BoardModel, r: int, f: int, p: Piece)
    requires
        shaped(m),
        on_board(r, f),
    ensures
        shaped(m.with_grid(m.put(r, f, p))),
        m.with_grid(m.put(r, f, p)).at(r, f) == p,
        forall|i: int, j: int| on_board(i, j) && (i != r || j != f)
            ==> #[trigger] m.with_grid(m.put(r, f, p)).at(i, j) == m.at(i, j),
        active_inputs(m.with_grid(m.put(r, f, p))) == swap_in(active_inputs(m), m.at(r, f), p, r * 8 + f),
        m.at(r, f) != Piece::Empty ==> active_inputs(m).count(feature_of(m.at(r, f), r * 8 + f) as usize) >= 1,
{
    lemma_put_prefix(m, r, f, p, 64);
    let m2 = m.with_grid(m.put(r, f, p));
    assert forall|i: int| 0 <= i < 8 implies #[trigger] m2.grid[i].len() == 8 by {
        if i != r {
            assert(m2.grid[i] == m.grid[i]);
        }
    }
}

proof fn lemma_apply_concat(ms: Multiset<usize>, s: Seq<(usize, bool)>, t: Seq<(usize, bool)>)
    ensures
        apply_steps(ms, s + t) == apply_steps(apply_steps(ms, s), t),
    decreases t.len(),
{
    if t.len() == 0 {
        assert(s + t =~= s);
    } else {
        lemma_apply_concat(ms, s, t.drop_last());
        assert((s + t).drop_last() =~= s + t.drop_last());
        assert((s + t).last() == t.last());
    }
}

proof fn lemma_apply_one(ms: Multiset<usize>, x: (usize, bool))
    ensures
        apply_steps(ms, seq![x]) == if x.1 { ms.insert(x.0) } else { ms.remove(x.0) },
{
    assert(seq![x].drop_last() =~= Seq::<(usize, bool)>::empty());
    assert(apply_steps(ms, Seq::<(usize, bool)>::empty()) == ms);
    assert(seq![x].last() == x);
}

proof fn lemma_same_grid(m1: BoardModel, m2: BoardModel, n: int)
    requires
        m1.grid == m2.grid,
    ensures
        active_prefix(m1, n) == active_prefix(m2, n),
    decreases n,
{
    if n > 0 {
        lemma_same_grid(m1, m2, n - 1);
    }
}

/// The moves whose input changes are exact: the mover is a piece and changes square,
/// a promotion names a piece, a castling rook stands in its corner and lands on an
/// empty square away from the king's two squares, and the pawn taken en passant
/// stands on the board away from the mover's square.
pub open spec fn steps_exact(m: BoardModel, mv: ChessMove) -> bool {
    let fr = mv.from.0 as int;
    let ff = mv.from.1 as int;
    let tr = mv.to.0 as int;
    let tf = mv.to.1 as int;
    let moved = m.at(fr, ff);
    let back: int = if m.turn == Color::White { 7 } else { 0 };
    let corner: int = if tf == 6 { 7 } else { 0 };
    let next: int = if tf == 6 { 5 } else { 3 };
    let cr: int = if moved == Piece::WhitePawn { tr + 1 } else { tr - 1 };
    &&& on_board(fr, ff)
    &&& on_board(tr, tf)
    &&& (fr != tr || ff != tf)
    &&& moved != Piece::Empty
    &&& (mv.move_type matches MoveType::Promotion(pp) ==> pp != Piece::Empty)
    &&& (mv.move_type is Castling && (tf == 6 || tf == 2)) ==> {
        &&& m.at(back, corner) != Piece::Empty
        &&& m.at(back, next) == Piece::Empty
        &&& (fr != back || (ff != corner && ff != next))
        &&& (tr != back || (tf != corner && tf != next))
    }
    &&& (mv.move_type is EnPassant && (moved == Piece::WhitePawn || moved == Piece::BlackPawn)) ==> {
        &&& on_board(cr, tf)
        &&& (cr != fr || tf != ff)
    }
}

/// The mover leaves (fr, ff) and `land` stands on (tr, tf): the inputs change by the
/// mover's and any taken piece's input off and the landing piece's on.
proof fn lemma_land(m: BoardModel, fr: int, ff: int, tr: int, tf: int, land: Piece)
    requires
        shaped(m),
        on_board(fr, ff),
        on_board(tr, tf),
        fr != tr || ff != tf,
        m.at(fr, ff) != Piece::Empty,
        land != Piece::Empty,
    ensures
        ({
            let m1 = m.with_grid(m.put(tr, tf, land));
            let m2 = m1.with_grid(m1.put(fr, ff, Piece::Empty));
            let moved = m.at(fr, ff);
            let captured = m.at(tr, tf);
            let head = (if moved != Piece::Empty { seq![off_step(moved, fr, ff)] } else { Seq::empty() })
                + (if captured != Piece::Empty { seq![off_step(captured, tr, tf)] } else { Seq::empty() });
            &&& shaped(m2)
            &&& m2.at(fr, ff) == Piece::Empty
            &&& m2.at(tr, tf) == land
            &&& forall|i: int, j: int| on_board(i, j) && (i != fr || j != ff) && (i != tr || j != tf)
                ==> #[trigger] m2.at(i, j) == m.at(i, j)
            &&& apply_steps(active_inputs(m), head + seq![on_step(land, tr, tf)]) == active_inputs(m2)
        }),
{
    broadcast use vstd::multiset::group_multiset_axioms;
    let m1 = m.with_grid(m.put(tr, tf, land));
    let m2 = m1.with_grid(m1.put(fr, ff, Piece::Empty));
    let moved = m.at(fr, ff);
    let captured = m.at(tr, tf);
    let a = active_inputs(m);
    lemma_put(m, tr, tf, land);
    lemma_put(m1, fr, ff, Piece::Empty);
    lemma_put(m, fr, ff, Piece::Empty);
    let fm = feature_of(moved, fr * 8 + ff) as usize;
    let ft = feature_of(land, tr * 8 + tf) as usize;
    assert(fm != ft) by {
        if fm == ft {
            lemma_feature_injective(moved, fr * 8 + ff, land, tr * 8 + tf);
        }
    }
    let hm = seq![off_step(moved, fr, ff)];
    let hc: Seq<(usize, bool)> = if captured != Piece::Empty { seq![off_step(captured, tr, tf)] } else { Seq::empty() };
    let lt = seq![on_step(land, tr, tf)];
    lemma_apply_concat(a, hm + hc, lt);
    lemma_apply_concat(a, hm, hc);
    lemma_apply_one(a, off_step(moved, fr, ff));
    let a1 = a.remove(fm);
    if captured != Piece::Empty {
        let fc = feature_of(captured, tr * 8 + tf) as usize;
        assert(fm != fc) by {
            if fm == fc {
                lemma_feature_injective(moved, fr * 8 + ff, captured, tr * 8 + tf);
            }
        }
        lemma_apply_one(a1, off_step(captured, tr, tf));
        lemma_apply_one(a1.remove(fc), on_step(land, tr, tf));
        assert(a1.remove(fc).insert(ft) =~= a.remove(fc).insert(ft).remove(fm));
    } else {
        assert(apply_steps(a1, hc) == a1);
        lemma_apply_one(a1, on_step(land, tr, tf));
        assert(a1.insert(ft) =~= a.insert(ft).remove(fm));
    }
}

/// A rook moves from its corner to an empty square of the same rank.
proof fn lemma_rook_move(m2: BoardModel, back: int, corner: int, next: int)
    requires
        shaped(m2),
        on_board(back, corner),
        on_board(back, next),
        corner != next,
        m2.at(back, corner) != Piece::Empty,
        m2.at(back, next) == Piece::Empty,
    ensures
        ({
            let rook = m2.at(back, corner);
            let m3 = m2.with_grid(m2.put(back, next, rook));
            active_inputs(m3.with_grid(m3.put(back, corner, Piece::Empty)))
                == apply_steps(active_inputs(m2), seq![off_step(rook, back, corner), on_step(rook, back, next)])
        }),
{
    broadcast use vstd::multiset::group_multiset_axioms;
    let rook = m2.at(back, corner);
    let m3 = m2.with_grid(m2.put(back, next, rook));
    let a2 = active_inputs(m2);
    lemma_put(m2, back, next, rook);
    lemma_put(m3, back, corner, Piece::Empty);
    lemma_put(m2, back, corner, Piece::Empty);
    let fc = feature_of(rook, back * 8 + corner) as usize;
    let fn_ = feature_of(rook, back * 8 + next) as usize;
    assert(fc != fn_) by {
        if fc == fn_ {
            lemma_feature_injective(rook, back * 8 + corner, rook, back * 8 + next);
        }
    }
    let x = off_step(rook, back, corner);
    let y = on_step(rook, back, next);
    lemma_apply_concat(a2, seq![x], seq![y]);
    assert(seq![x] + seq![y] =~= seq![x, y]);
    lemma_apply_one(a2, x);
    lemma_apply_one(a2.remove(fc), y);
    assert(a2.insert(fn_).remove(fc) =~= a2.remove(fc).insert(fn_));
}

/// Applying a move's input changes to the inputs of the position before it gives
/// the inputs of the position after it, for every move whose changes are exact.
pub proof fn lemma_move_steps_exact(b: Board, mv: ChessMove)
    requires
        steps_exact(b@, mv),
    ensures
        apply_steps(active_inputs(b@), move_steps(b@, mv)) == active_inputs(b@.after_move(mv.from, mv.to, mv.move_type)),
{
    let m = b@;
    assert forall|i: int| 0 <= i < 8 implies #[trigger] m.grid[i].len() == 8 by {}
    assert(shaped(m));
    let fr = mv.from.0 as int;
    let ff = mv.from.1 as int;
    let tr = mv.to.0 as int;
    let tf = mv.to.1 as int;
    let moved = m.at(fr, ff);
    let captured = m.at(tr, tf);
    let head = (if moved != Piece::Empty { seq![off_step(moved, fr, ff)] } else { Seq::empty() })
        + (if captured != Piece::Empty { seq![off_step(captured, tr, tf)] } else { Seq::empty() });
    let after = m.after_move(mv.from, mv.to, mv.move_type);
    let placed = m.with_grid(m.placed(mv.from, mv.to, mv.move_type));
    lemma_same_grid(after, placed, 64);
    let a = active_inputs(m);
    let land = match mv.move_type { MoveType::Promotion(pp) => pp, _ => moved };
    lemma_land(m, fr, ff, tr, tf, land);
    let m1 = m.with_grid(m.put(tr, tf, land));
    let m2 = m1.with_grid(m1.put(fr, ff, Piece::Empty));
    let first = head + seq![on_step(land, tr, tf)];
    match mv.move_type {
        MoveType::Castling => {
            let back: int = if m.turn == Color::White { 7 } else { 0 };
            assert(move_steps(m, mv) =~= first + rook_steps(m, tf));
            lemma_apply_concat(a, first, rook_steps(m, tf));
            if tf == 6 || tf == 2 {
                let corner: int = if tf == 6 { 7 } else { 0 };
                let next: int = if tf == 6 { 5 } else { 3 };
                assert(m2.at(back, corner) == m.at(back, corner));
                assert(m2.at(back, next) == m.at(back, next));
                lemma_rook_move(m2, back, corner, next);
                let rook = m2.at(back, corner);
                let m3 = m2.with_grid(m2.put(back, next, rook));
                lemma_same_grid(placed, m3.with_grid(m3.put(back, corner, Piece::Empty)), 64);
            } else {
                assert(rook_steps(m, tf) =~= Seq::<(usize, bool)>::empty());
                lemma_same_grid(placed, m2, 64);
            }
        },
        MoveType::EnPassant => {
            let ep = en_passant_steps(m, moved, tr, tf);
            assert(move_steps(m, mv) =~= first + ep);
            lemma_apply_concat(a, first, ep);
            if moved == Piece::WhitePawn || moved == Piece::BlackPawn {
                let cr: int = if moved == Piece::WhitePawn { tr + 1 } else { tr - 1 };
                assert(m2.at(cr, tf) == m.at(cr, tf));
                lemma_put(m2, cr, tf, Piece::Empty);
                lemma_same_grid(placed, m2.with_grid(m2.put(cr, tf, Piece::Empty)), 64);
                if m.at(cr, tf) != Piece::Empty {
                    lemma_apply_one(active_inputs(m2), off_step(m.at(cr, tf), cr, tf));
                } else {
                    assert(active_inputs(m2.with_grid(m2.put(cr, tf, Piece::Empty))) =~= active_inputs(m2));
                }
            } else {
                lemma_same_grid(placed, m2, 64);
            }
        },
        _ => {
            assert(move_steps(m, mv) =~= first);
            lemma_same_grid(placed, m2, 64);
        },
    }
}

} // verus!
