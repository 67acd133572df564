//! Reading back what `to_fen` writes gives the position that was written.

use vstd::prelude::*;
use crate::board::board::{Board, Color, CastlingRights, on_board, rights_parse, rights_text, no_rights,
    square_of, square_text, lemma_square_text_roundtrip, lemma_square_of_roundtrip};
use crate::board::fen::{lemma_rank_state_stays_none, rank_state, rank_row, row_state, row_text, placement_prefix, ep_text, ep_of,
    fen_text, fen_model};
use crate::board::pieces::{Piece, piece_letter, letter_piece, lemma_piece_letter_roundtrip};
use crate::text::{decimal, digit_char, digit_value, is_digit, all_digits, digits_value, parse_u32_spec,
    whitespace_char, split_ws, split_ws_state, split_on, split_on_state};

verus! {

/// The squares of a row after the first `k` have been read: the row's own pieces
/// before `lim`, empty squares from there on.
pub open spec fn row_upto(row: Seq<Piece>, lim: int) -> Seq<Piece> {
    Seq::new(8, |i: int| if i < lim { row[i] } else { Piece::Empty })
}

proof fn lemma_digit_char(d: int)
    requires
        0 <= d <= 9,
    ensures
        is_digit(digit_char(d)),
        digit_value(digit_char(d)) == d,
        !whitespace_char(digit_char(d)),
        digit_char(d) != '/',
        digit_char(d) != '+',
{
    assert(digit_char(d) as u32 == d + 48);
}

proof fn lemma_letter(p: Piece)
    requires
        p != Piece::Empty,
    ensures
        letter_piece(piece_letter(p)) == Some(p),
        !is_digit(piece_letter(p)),
        !whitespace_char(piece_letter(p)),
        piece_letter(p) != '/',
{
    lemma_piece_letter_roundtrip(p, piece_letter(p));
}

proof fn lemma_row_prefix(row: Seq<Piece>, k: int)
    requires
        row.len() == 8,
        0 <= k <= 8,
    ensures
        0 <= row_state(row.take(k)).1 <= k,
        rank_state(row_state(row.take(k)).0) == Some((k - row_state(row.take(k)).1, row_upto(row, k - row_state(row.take(k)).1))),
        forall|i: int| k - row_state(row.take(k)).1 <= i < k ==> row[i] == Piece::Empty,
        forall|i: int| 0 <= i < row_state(row.take(k)).0.len() ==> {
            let c = #[trigger] row_state(row.take(k)).0[i];
            !whitespace_char(c) && c != '/'
        },
    decreases k,
{
    if k == 0 {
        assert(row.take(0) =~= Seq::<Piece>::empty());
        assert(row_upto(row, 0) =~= Seq::new(8, |f: int| Piece::Empty));
    } else {
        lemma_row_prefix(row, k - 1);
        let prev = row.take(k - 1);
        assert(row.take(k).drop_last() =~= prev);
        assert(row.take(k).last() == row[k - 1]);
        let st = row_state(prev);
        let p = row[k - 1];
        let idx = k - 1 - st.1;
        if p == Piece::Empty {
            assert(row_upto(row, idx) =~= row_upto(row, k - (st.1 + 1)));
        } else {
            lemma_letter(p);
            let l = piece_letter(p);
            let digits: Seq<char> = if st.1 > 0 { seq![digit_char(st.1)] } else { Seq::empty() };
            let mid = st.0 + digits;
            let txt = mid + seq![l];
            assert(row_state(row.take(k)).0 == txt);
            if st.1 > 0 {
                lemma_digit_char(st.1);
                assert(mid.drop_last() =~= st.0);
                assert(mid.last() == digit_char(st.1));
                assert(rank_state(mid) == Some((k - 1, row_upto(row, idx))));
            } else {
                assert(mid =~= st.0);
            }
            assert(txt.drop_last() =~= mid);
            assert(txt.last() == l);
            assert(row_upto(row, idx).update(k - 1, p) =~= row_upto(row, k));
            assert(rank_state(txt) == Some((k, row_upto(row, k))));
            assert forall|i: int| 0 <= i < txt.len() implies {
                let c = #[trigger] txt[i];
                !whitespace_char(c) && c != '/'
            } by {
                if i < st.0.len() {
                    assert(txt[i] == st.0[i]);
                } else if i < mid.len() {
                    assert(txt[i] == digit_char(st.1));
                } else {
                    assert(txt[i] == l);
                }
            }
        }
    }
}

/// A row of eight squares is read back from its FEN text.
pub proof fn lemma_row_text_roundtrip(row: Seq<Piece>)
    requires
        row.len() == 8,
    ensures
        rank_row(row_text(row)) == Some(row),
        row_text(row).len() > 0,
        forall|i: int| 0 <= i < row_text(row).len() ==> {
            let c = #[trigger] row_text(row)[i];
            !whitespace_char(c) && c != '/'
        },
{
    lemma_row_prefix(row, 8);
    assert(row.take(8) =~= row);
    let st = row_state(row);
    let t = row_text(row);
    if st.1 > 0 {
        lemma_digit_char(st.1);
        assert(t.drop_last() =~= st.0);
        assert(t.last() == digit_char(st.1));
        assert forall|i: int| 0 <= i < t.len() implies {
            let c = #[trigger] t[i];
            !whitespace_char(c) && c != '/'
        } by {
            if i < st.0.len() {
                assert(t[i] == st.0[i]);
            }
        }
    } else {
        assert(t =~= st.0);
    }
    assert(row_upto(row, 8) =~= row);
    assert(row_upto(row, 8 - st.1) =~= row);
}

/// No character of the text is whitespace.
pub open spec fn no_ws(s: Seq<char>) -> bool {
    forall|i: int| 0 <= i < s.len() ==> !whitespace_char(#[trigger] s[i])
}

proof fn lemma_decimal(n: nat)
    ensures
        all_digits(decimal(n)),
        digits_value(decimal(n)) == n,
        decimal(n).len() > 0,
        no_ws(decimal(n)),
        decimal(n)[0] != '+',
    decreases n,
{
    if n < 10 {
        lemma_digit_char(n as int);
        let s = decimal(n);
        assert(s.drop_last() =~= Seq::<char>::empty());
        assert(digits_value(Seq::<char>::empty()) == 0);
    } else {
        lemma_decimal(n / 10);
        lemma_digit_char((n % 10) as int);
        let p = decimal(n / 10);
        let s = p.push(digit_char((n % 10) as int));
        assert(s.drop_last() =~= p);
        assert(s[0] == p[0]);
        assert(digits_value(s) == (n / 10) * 10 + n % 10);
    }
}

/// The decimal numeral of a 32-bit count is read back as the count.
pub proof fn lemma_decimal_roundtrip(n: nat)
    requires
        n <= u32::MAX,
    ensures
        parse_u32_spec(decimal(n)) == Some(n as u32),
        decimal(n).len() > 0,
        no_ws(decimal(n)),
{
    lemma_decimal(n);
}

proof fn lemma_ws_token(s: Seq<char>, tok: Seq<char>)
    requires
        split_ws_state(s).1.len() == 0,
        no_ws(tok),
    ensures
        split_ws_state(s + tok) == (split_ws_state(s).0, tok),
    decreases tok.len(),
{
    if tok.len() == 0 {
        assert(s + tok =~= s);
    } else {
        lemma_ws_token(s, tok.drop_last());
        assert((s + tok).drop_last() =~= s + tok.drop_last());
        assert((s + tok).last() == tok.last());
        assert(tok.drop_last().push(tok.last()) =~= tok);
    }
}

proof fn lemma_ws_space(s: Seq<char>)
    requires
        split_ws_state(s).1.len() > 0,
    ensures
        split_ws_state(s + seq![' ']) == (split_ws_state(s).0.push(split_ws_state(s).1), Seq::<char>::empty()),
{
    assert((s + seq![' ']).drop_last() =~= s);
    assert((s + seq![' ']).last() == ' ');
    assert(whitespace_char(' '));
}

proof fn lemma_on_token(s: Seq<char>, tok: Seq<char>, sep: char)
    requires
        forall|i: int| 0 <= i < tok.len() ==> #[trigger] tok[i] != sep,
    ensures
        split_on_state(s + tok, sep) == (split_on_state(s, sep).0, split_on_state(s, sep).1 + tok),
    decreases tok.len(),
{
    if tok.len() == 0 {
        assert(s + tok =~= s);
        assert(split_on_state(s, sep).1 + tok =~= split_on_state(s, sep).1);
    } else {
        lemma_on_token(s, tok.drop_last(), sep);
        assert((s + tok).drop_last() =~= s + tok.drop_last());
        assert((s + tok).last() == tok.last());
        assert((split_on_state(s, sep).1 + tok.drop_last()).push(tok.last()) =~= split_on_state(s, sep).1 + tok);
    }
}

/// Eight rows of eight squares.
pub open spec fn rows_shaped(g: Seq<Seq<Piece>>) -> bool {
    g.len() == 8 && forall|i: int| 0 <= i < 8 ==> #[trigger] g[i].len() == 8
}

proof fn lemma_placement(g: Seq<Seq<Piece>>, n: int)
    requires
        rows_shaped(g),
        1 <= n <= 8,
    ensures
        split_on_state(placement_prefix(g, n), '/') == (Seq::new((n - 1) as nat, |i: int| row_text(g[i])), row_text(g[n - 1])),
        no_ws(placement_prefix(g, n)),
        placement_prefix(g, n).len() > 0,
    decreases n,
{
    lemma_row_text_roundtrip(g[n - 1]);
    let t = row_text(g[n - 1]);
    if n == 1 {
        lemma_on_token(Seq::empty(), t, '/');
        assert(Seq::<char>::empty() + t =~= t);
        assert(Seq::<char>::empty() + t =~= t);
        assert(Seq::new(0, |i: int| row_text(g[i])) =~= Seq::<Seq<char>>::empty());
        assert(split_on_state(Seq::<char>::empty(), '/') == (Seq::<Seq<char>>::empty(), Seq::<char>::empty()));
    } else {
        lemma_placement(g, n - 1);
        let p = placement_prefix(g, n - 1);
        let ps = p + seq!['/'];
        assert(ps.drop_last() =~= p);
        assert(ps.last() == '/');
        lemma_on_token(ps, t, '/');
        assert(Seq::new((n - 2) as nat, |i: int| row_text(g[i])).push(row_text(g[n - 2]))
            =~= Seq::new((n - 1) as nat, |i: int| row_text(g[i])));
        assert(Seq::<char>::empty() + t =~= t);
        let whole = ps + t;
        assert(placement_prefix(g, n) == whole);
        assert forall|i: int| 0 <= i < whole.len() implies !whitespace_char(#[trigger] whole[i]) by {
            if i < p.len() {
                assert(whole[i] == p[i]);
            } else if i == p.len() {
                assert(whole[i] == '/');
            } else {
                assert(whole[i] == t[i - p.len() - 1]);
            }
        }
    }
}

proof fn lemma_rights(c: CastlingRights)
    ensures
        rights_parse(rights_text(c)) == Some(c),
        rights_text(c).len() > 0,
        no_ws(rights_text(c)),
{
    let t = rights_text(c);
    let k1: int = if c.white_kingside { 1 } else { 0 };
    let k2: int = k1 + if c.white_queenside { 1int } else { 0int };
    let k3: int = k2 + if c.black_kingside { 1int } else { 0int };
    if c.white_kingside {
        assert(t[0] == 'K');
    }
    if c.white_queenside {
        assert(t[k1] == 'Q');
    }
    if c.black_kingside {
        assert(t[k2] == 'k');
    }
    if c.black_queenside {
        assert(t[k3] == 'q');
    }
    assert(t.contains('K') == c.white_kingside);
    assert(t.contains('Q') == c.white_queenside);
    assert(t.contains('k') == c.black_kingside);
    assert(t.contains('q') == c.black_queenside);
}

proof fn lemma_ep(ep: Option<(usize, usize)>)
    requires
        ep matches Some(sq) ==> on_board(sq.0 as int, sq.1 as int),
    ensures
        ep_of(ep_text(ep)) == Some(ep),
        ep_text(ep).len() > 0,
        no_ws(ep_text(ep)),
{
    match ep {
        None => {},
        Some(sq) => {
            let t = square_text(sq);
            assert(ep_text(ep) =~= t);
            lemma_square_text_roundtrip(sq);
            assert(t[0] as u32 == 97 + sq.1);
            assert(t[1] as u32 == 56 - sq.0);
            assert(t.len() == 2);
            assert(t != seq!['-']);
        },
    }
}

/// Reading back the FEN text of a position gives the position, whenever its en
/// passant square is on the board.
pub proof fn lemma_fen_roundtrip(b: Board)
    requires
        b.en_passant_square matches Some(sq) ==> on_board(sq.0 as int, sq.1 as int),
    ensures
        fen_model(fen_text(b@)) == Some(b@),
{
    let m = b@;
    let g = m.grid;
    assert forall|i: int| 0 <= i < 8 implies #[trigger] g[i].len() == 8 by {}
    assert(rows_shaped(g));
    lemma_placement(g, 8);
    let p = placement_prefix(g, 8);
    let t: Seq<char> = if m.turn == Color::White { seq!['w'] } else { seq!['b'] };
    let c = rights_text(m.castling);
    let e = ep_text(m.en_passant);
    let h = decimal(m.halfmove as nat);
    let f = decimal(m.fullmove as nat);
    lemma_rights(m.castling);
    lemma_ep(m.en_passant);
    lemma_decimal_roundtrip(m.halfmove as nat);
    lemma_decimal_roundtrip(m.fullmove as nat);
    assert(no_ws(t));
    let sp = seq![' '];
    let e0 = Seq::<char>::empty();
    assert(e0 + p =~= p);
    lemma_ws_token(e0, p);
    lemma_ws_space(p);
    let s2 = p + sp;
    lemma_ws_token(s2, t);
    let s3 = s2 + t;
    lemma_ws_space(s3);
    let s4 = s3 + sp;
    lemma_ws_token(s4, c);
    let s5 = s4 + c;
    lemma_ws_space(s5);
    let s6 = s5 + sp;
    lemma_ws_token(s6, e);
    let s7 = s6 + e;
    lemma_ws_space(s7);
    let s8 = s7 + sp;
    lemma_ws_token(s8, h);
    let s9 = s8 + h;
    lemma_ws_space(s9);
    let s10 = s9 + sp;
    lemma_ws_token(s10, f);
    let s11 = s10 + f;
    assert(fen_text(m) == s11);
    let parts = split_ws(s11);
    assert(parts =~= seq![p, t, c, e, h, f]);
    let ranks = split_on(p, '/');
    assert(ranks =~= Seq::new(8, |i: int| row_text(g[i])));
    assert forall|i: int| 0 <= i < 8 implies #[trigger] rank_row(ranks[i]) == Some(g[i]) by {
        lemma_row_text_roundtrip(g[i]);
    }
    assert(Seq::new(8, |i: int| rank_row(ranks[i]).unwrap()) =~= g);
}

/// A FEN rank as `to_fen` writes it: digits 1 to 8 and piece letters, never two
/// digits in a row.
pub open spec fn canonical_rank(t: Seq<char>) -> bool {
    &&& forall|i: int| 0 <= i < t.len() ==> ('1' <= #[trigger] t[i] && t[i] <= '8') || letter_piece(t[i]) is Some
    &&& forall|i: int| 0 < i < t.len() ==> !(is_digit(#[trigger] t[i]) && is_digit(t[i - 1]))
}

proof fn lemma_digit_roundtrip(c: char)
    requires
        is_digit(c),
    ensures
        digit_char(digit_value(c)) == c,
        0 <= digit_value(c) <= 9,
{
    assert(digit_char(digit_value(c)) as u32 == c as u32);
}

proof fn lemma_row_empties(x: Seq<Piece>, d: int)
    requires
        0 <= d,
    ensures
        row_state(x + Seq::new(d as nat, |i: int| Piece::Empty)) == (row_state(x).0, row_state(x).1 + d),
    decreases d,
{
    let y = x + Seq::new(d as nat, |i: int| Piece::Empty);
    if d == 0 {
        assert(y =~= x);
    } else {
        lemma_row_empties(x, d - 1);
        assert(y.drop_last() =~= x + Seq::new((d - 1) as nat, |i: int| Piece::Empty));
        assert(y.last() == Piece::Empty);
    }
}

/// The text before a trailing digit and that digit's value (none: the whole text and 0).
pub open spec fn split_run(t: Seq<char>) -> (Seq<char>, int) {
    if t.len() > 0 && is_digit(t.last()) { (t.drop_last(), digit_value(t.last())) } else { (t, 0) }
}

proof fn lemma_rank_prefix(t: Seq<char>, k: int)
    requires
        canonical_rank(t),
        rank_row(t) is Some,
        0 <= k <= t.len(),
    ensures
        ({
            let st = rank_state(t.take(k)).unwrap();
            &&& rank_state(t.take(k)) is Some
            &&& 0 <= st.0 <= 8
            &&& st.1.len() == 8
            &&& forall|j: int| st.0 <= j < 8 ==> #[trigger] st.1[j] == Piece::Empty
            &&& row_state(st.1.take(st.0)) == split_run(t.take(k))
        }),
    decreases k,
{
    if rank_state(t.take(k)) is None {
        lemma_rank_state_stays_none(t, k);
    }
    if k == 0 {
        assert(t.take(0) =~= Seq::<char>::empty());
        let st = rank_state(t.take(0)).unwrap();
        assert(st.1.take(0) =~= Seq::<Piece>::empty());
    } else {
        lemma_rank_prefix(t, k - 1);
        let prev = t.take(k - 1);
        let cur = t.take(k);
        assert(cur.drop_last() =~= prev);
        assert(cur.last() == t[k - 1]);
        let (idx, r) = rank_state(prev).unwrap();
        let c = t[k - 1];
        if is_digit(c) {
            lemma_digit_roundtrip(c);
            let d = digit_value(c);
            assert(1 <= d <= 8);
            if k >= 2 {
                assert(!is_digit(t[k - 2]));
                assert(prev.last() == t[k - 2]);
            }
            assert(split_run(prev) == (prev, 0int));
            if k < t.len() {
                assert(t.take(k + 1).drop_last() =~= cur);
                if rank_state(t.take(k + 1)) is None {
                    lemma_rank_state_stays_none(t, k + 1);
                }
            } else {
                assert(cur =~= t);
            }
            assert(idx + d <= 8);
            assert(r.take(idx + d) =~= r.take(idx) + Seq::new(d as nat, |i: int| Piece::Empty));
            lemma_row_empties(r.take(idx), d);
            assert(split_run(cur) == (prev, d));
        } else {
            let p = letter_piece(c).unwrap();
            lemma_piece_letter_roundtrip(p, c);
            lemma_letter(p);
            let r2 = r.update(idx, p);
            assert(r2.take(idx + 1).drop_last() =~= r.take(idx));
            assert(r2.take(idx + 1).last() == p);
            let sp = split_run(prev);
            if sp.1 > 0 {
                lemma_digit_roundtrip(prev.last());
                assert(sp.0 + seq![digit_char(sp.1)] =~= prev);
            } else {
                assert(sp.0 + Seq::<char>::empty() =~= prev);
            }
            assert(prev + seq![piece_letter(p)] =~= cur);
            assert(split_run(cur) == (cur, 0int));
        }
    }
}

/// A rank written canonically is written back unchanged from the row it describes.
pub proof fn lemma_rank_text_canonical(t: Seq<char>)
    requires
        canonical_rank(t),
        rank_row(t) is Some,
    ensures
        row_text(rank_row(t).unwrap()) == t,
{
    lemma_rank_prefix(t, t.len() as int);
    assert(t.take(t.len() as int) =~= t);
    let (idx, r) = rank_state(t).unwrap();
    assert(r.take(8) =~= r);
    let sp = split_run(t);
    if sp.1 > 0 {
        lemma_digit_roundtrip(t.last());
        assert(sp.0 + seq![digit_char(sp.1)] =~= t);
    } else {
        assert(sp.0 + Seq::<char>::empty() =~= t);
    }
}

/// Pieces of text joined with a separator between each two.
pub open spec fn join_with(r: Seq<Seq<char>>, sep: char) -> Seq<char>
    decreases r.len(),
{
    if r.len() == 0 {
        Seq::empty()
    } else if r.len() == 1 {
        r[0]
    } else {
        join_with(r.drop_last(), sep) + seq![sep] + r.last()
    }
}

proof fn lemma_join_extend(r: Seq<Seq<char>>, sep: char, c: char)
    requires
        r.len() >= 1,
    ensures
        join_with(r.update(r.len() - 1, r.last().push(c)), sep) == join_with(r, sep).push(c),
{
    let r2 = r.update(r.len() - 1, r.last().push(c));
    if r.len() > 1 {
        assert(r2.drop_last() =~= r.drop_last());
    }
}

/// Joining the pieces that splitting on a separator gives back the text.
pub proof fn lemma_split_join(p: Seq<char>, sep: char)
    ensures
        join_with(split_on(p, sep), sep) == p,
    decreases p.len(),
{
    let st = split_on_state(p, sep);
    if p.len() == 0 {
        assert(split_on(p, sep) =~= seq![Seq::<char>::empty()]);
    } else {
        let q = p.drop_last();
        lemma_split_join(q, sep);
        let st0 = split_on_state(q, sep);
        let c = p.last();
        assert(q.push(c) =~= p);
        if c == sep {
            let r = st0.0.push(st0.1).push(Seq::<char>::empty());
            assert(split_on(p, sep) =~= r);
            assert(r.drop_last() =~= st0.0.push(st0.1));
            assert(join_with(r, sep) =~= q + seq![sep] + Seq::<char>::empty());
        } else {
            let r = st0.0.push(st0.1);
            assert(split_on(p, sep) =~= r.update(r.len() - 1, r.last().push(c)));
            lemma_join_extend(r, sep, c);
        }
    }
}

proof fn lemma_placement_join(g: Seq<Seq<Piece>>, n: int)
    requires
        1 <= n <= g.len(),
    ensures
        placement_prefix(g, n) == join_with(Seq::new(n as nat, |i: int| row_text(g[i])), '/'),
    decreases n,
{
    let r = Seq::new(n as nat, |i: int| row_text(g[i]));
    if n > 1 {
        lemma_placement_join(g, n - 1);
        assert(r.drop_last() =~= Seq::new((n - 1) as nat, |i: int| row_text(g[i])));
    }
}

/// A count written without leading zeros.
pub open spec fn canonical_number(t: Seq<char>) -> bool {
    t.len() > 0 && all_digits(t) && (t.len() > 1 ==> t[0] != '0')
}

proof fn lemma_number_canonical(t: Seq<char>)
    requires
        canonical_number(t),
    ensures
        decimal(digits_value(t) as nat) == t,
        digits_value(t) >= 0,
        t.len() > 1 ==> digits_value(t) >= 10,
    decreases t.len(),
{
    let c = t.last();
    lemma_digit_roundtrip(c);
    if t.len() == 1 {
        assert(t.drop_last() =~= Seq::<char>::empty());
        assert(digits_value(Seq::<char>::empty()) == 0);
        assert(seq![c] =~= t);
    } else {
        let q = t.drop_last();
        assert(q[0] == t[0]);
        lemma_number_canonical(q);
        if q.len() == 1 {
            lemma_digit_roundtrip(q[0]);
            assert(digits_value(q) == digit_value(q[0])) by {
                assert(q.drop_last() =~= Seq::<char>::empty());
                assert(digits_value(Seq::<char>::empty()) == 0);
                assert(q.last() == q[0]);
            }
            assert(digits_value(q) >= 1);
        }
        let v = digits_value(q);
        let n = digits_value(t);
        assert(n == v * 10 + digit_value(c));
        assert(n / 10 == v && n % 10 == digit_value(c));
        assert(q.push(c) =~= t);
    }
}

/// A castling field as `to_fen` writes it: `-`, or the granted rights' letters in
/// the order K, Q, k, q.
pub open spec fn canonical_rights(t: Seq<char>) -> bool {
    t == seq!['-'] || (t.len() > 0 && t == rights_text(CastlingRights {
        white_kingside: t.contains('K'),
        white_queenside: t.contains('Q'),
        black_kingside: t.contains('k'),
        black_queenside: t.contains('q'),
    }))
}

/// Six fields joined by single spaces.
pub open spec fn join_fields(p: Seq<Seq<char>>) -> Seq<char> {
    p[0] + seq![' '] + p[1] + seq![' '] + p[2] + seq![' '] + p[3] + seq![' '] + p[4] + seq![' '] + p[5]
}

/// A FEN text written the way `to_fen` writes one: six fields separated by single
/// spaces, every rank canonical, the castling letters in the order K, Q, k, q, and
/// both counts without leading zeros.
pub open spec fn canonical_fen(s: Seq<char>) -> bool {
    let parts = split_ws(s);
    &&& parts.len() == 6
    &&& s == join_fields(parts)
    &&& forall|i: int| 0 <= i < split_on(parts[0], '/').len() ==> canonical_rank(#[trigger] split_on(parts[0], '/')[i])
    &&& canonical_rights(parts[2])
    &&& canonical_number(parts[4])
    &&& canonical_number(parts[5])
}

/// A FEN text that `from_fen` accepts and that is written canonically is written
/// back unchanged by `to_fen`.
pub proof fn lemma_canonical_fen_roundtrip(s: Seq<char>)
    requires
        fen_model(s) is Some,
        canonical_fen(s),
    ensures
        fen_text(fen_model(s).unwrap()) == s,
{
    let m = fen_model(s).unwrap();
    let parts = split_ws(s);
    let ranks = split_on(parts[0], '/');
    let g = m.grid;
    assert forall|i: int| 0 <= i < 8 implies #[trigger] row_text(g[i]) == ranks[i] by {
        assert(g[i] == rank_row(ranks[i]).unwrap());
        lemma_rank_text_canonical(ranks[i]);
    }
    lemma_placement_join(g, 8);
    assert(Seq::new(8, |i: int| row_text(g[i])) =~= ranks);
    lemma_split_join(parts[0], '/');
    assert(placement_prefix(g, 8) == parts[0]);
    let t: Seq<char> = if m.turn == Color::White { seq!['w'] } else { seq!['b'] };
    assert(t == parts[1]);
    let c = parts[2];
    if c == seq!['-'] {
        assert(m.castling == no_rights());
        assert(rights_text(m.castling) == c);
    } else {
        assert(rights_text(m.castling) == c);
    }
    let e = parts[3];
    if e != seq!['-'] {
        lemma_square_of_roundtrip(e);
        let sq = square_of(e).unwrap();
        assert(ep_text(m.en_passant) =~= square_text(sq));
    }
    assert(ep_text(m.en_passant) == e);
    lemma_number_canonical(parts[4]);
    lemma_number_canonical(parts[5]);
    assert(decimal(m.halfmove as nat) == parts[4]);
    assert(decimal(m.fullmove as nat) == parts[5]);
}

} // verus!
