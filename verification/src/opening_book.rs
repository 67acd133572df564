//! The opening book: moves recommended for known positions, read from EPD
//! records (`<fen>; bm <san> ...;`) and keyed by a hash of the position.

use vstd::prelude::*;
use std::collections::HashMap;
use crate::board::board::{Board, BoardModel, Color, on_board};
use crate::board::chess_move::{ChessMove, MoveType, mk_move};
use crate::board::pieces::Piece;
use crate::text::{
    chars_of, chars_equal, push_char, split_on, split_on_char, split_whitespace, split_ws, trim, trim_ws,
    is_lowercase, is_uppercase, lowercase_char, uppercase_char,
};

verus! {

#[derive(Clone, Copy, Debug)]
pub struct BookMove {
    pub move_obj: ChessMove,
    pub weight: u32,
}

pub open spec fn wmul(x: u64, y: u64) -> u64 {
    vstd::wrapping::u64_specs::wrapping_mul(x, y)
}

pub open spec fn wadd(x: u64, y: u64) -> u64 {
    vstd::wrapping::u64_specs::wrapping_add(x, y)
}

/// The book's key of a piece kind (numbered 0 to 11) on a square (0 to 63).
pub open spec fn piece_key(id: u64, square: u64) -> u64 {
    let h = wmul(wmul(0x9e3779b97f4a7c15u64, wadd(id, 1)), 0xbf58476d1ce4e5b9u64);
    h ^ wmul(square, 0x94d049bb133111ebu64)
}

pub open spec fn piece_id(p: Piece) -> u64 {
    match p {
        Piece::WhitePawn => 0,
        Piece::WhiteKnight => 1,
        Piece::WhiteBishop => 2,
        Piece::WhiteRook => 3,
        Piece::WhiteQueen => 4,
        Piece::WhiteKing => 5,
        Piece::BlackPawn => 6,
        Piece::BlackKnight => 7,
        Piece::BlackBishop => 8,
        Piece::BlackRook => 9,
        Piece::BlackQueen => 10,
        Piece::BlackKing => 11,
        Piece::Empty => 12,
    }
}

/// The XOR of the keys of the pieces on the first `n` squares.
pub open spec fn book_squares(m: BoardModel, n: int) -> u64
    decreases n,
{
    if n <= 0 {
        0
    } else {
        let prev = book_squares(m, n - 1);
        let p = m.at((n - 1) / 8, (n - 1) % 8);
        if p != Piece::Empty { prev ^ piece_key(piece_id(p), (n - 1) as u64) } else { prev }
    }
}

pub open spec fn rights_key(m: BoardModel) -> u64 {
    let h1: u64 = if m.castling.white_kingside { 0u64 ^ 0x1234567890abcdefu64 } else { 0 };
    let h2: u64 = if m.castling.white_queenside { h1 ^ 0x2345678901bcdef0u64 } else { h1 };
    let h3: u64 = if m.castling.black_kingside { h2 ^ 0x3456789012cdef01u64 } else { h2 };
    if m.castling.black_queenside { h3 ^ 0x456789023def012u64 } else { h3 }
}

/// The book's hash of a position: its pieces, the side to move, the castling
/// rights and the en passant square.
pub open spec fn book_hash(m: BoardModel) -> u64 {
    let h0 = book_squares(m, 64);
    let h1 = if m.turn == Color::Black { h0 ^ 0x8f1d3642e6842609u64 } else { h0 };
    let h2 = h1 ^ rights_key(m);
    match m.en_passant {
        Some(ep) => h2 ^ wmul(0xabcdef0123456789u64, wadd((ep.0 * 8 + ep.1) as u64, 1)),
        None => h2,
    }
}

/// The en passant square's index fits in a machine word.
pub open spec fn hashable(m: BoardModel) -> bool {
    m.en_passant matches Some(ep) ==> ep.0 * 8 + ep.1 <= usize::MAX
}

/// The position of the heaviest of the first `n` book moves; the last one among equals.
pub open spec fn heaviest(s: Seq<BookMove>, n: int) -> int
    decreases n,
{
    if n <= 1 {
        0
    } else {
        let j = heaviest(s, n - 1);
        if s[n - 1].weight >= s[j].weight { n - 1 } else { j }
    }
}

/// The index of a file letter; letters other than `a` to `h` give 0.
pub open spec fn file_index(c: char) -> usize {
    if 'a' <= c && c <= 'h' { ((c as u32) - 97) as usize } else { 0 }
}

/// The square a two-character coordinate names: the file by its letter (unknown
/// letters count as the a-file) and the rank by a digit from 1 to 8.
pub open spec fn notation_square(s: Seq<char>) -> Option<(usize, usize)> {
    if s.len() == 2 && '1' <= s[1] && s[1] <= '8' {
        Some(((7 - ((s[1] as u32) - 49)) as usize, file_index(s[0])))
    } else {
        None
    }
}

/// The number of bytes of a character in UTF-8.
pub open spec fn utf8_width(c: char) -> int {
    if (c as u32) < 0x80 { 1 } else if (c as u32) < 0x800 { 2 } else if (c as u32) < 0x10000 { 3 } else { 4 }
}

/// Cutting the last two bytes off the text would split a character.
pub open spec fn splits_char(pre: Seq<char>) -> bool {
    pre.len() >= 1 && (
        (utf8_width(pre.last()) == 1 && pre.len() >= 2 && utf8_width(pre[pre.len() - 2]) > 1)
        || utf8_width(pre.last()) >= 3)
}

/// The last two bytes of the text as two characters, when both are ASCII.
pub open spec fn last_two(pre: Seq<char>) -> Option<Seq<char>> {
    if pre.len() >= 2 && utf8_width(pre.last()) == 1 && utf8_width(pre[pre.len() - 2]) == 1 {
        Some(pre.subrange(pre.len() - 2, pre.len() as int))
    } else {
        None
    }
}

/// The text without trailing check and mate marks.
pub open spec fn strip_marks(s: Seq<char>) -> Seq<char>
    decreases s.len(),
{
    if s.len() > 0 && (s.last() == '#' || s.last() == '+') { strip_marks(s.drop_last()) } else { s }
}

/// The position of the first `=` in the text, or its length.
pub open spec fn promo_mark(s: Seq<char>, i: int) -> int
    decreases s.len() - i,
{
    if i >= s.len() { s.len() as int } else if s[i] == '=' { i } else { promo_mark(s, i + 1) }
}

pub open spec fn short_castle(s: Seq<char>) -> bool {
    s == seq!['O', '-', 'O'] || s == seq!['0', '-', '0']
}

pub open spec fn long_castle(s: Seq<char>) -> bool {
    s == seq!['O', '-', 'O', '-', 'O'] || s == seq!['0', '-', '0', '-', '0']
}

/// The king of the side to move, the one the book's castling moves start from.
pub open spec fn mover_king(m: BoardModel) -> Option<(usize, usize)> {
    m.king_square(m.turn)
}

/// The first legal move, from index `i` on, that lands on `to` and, when a file is
/// given, starts on that file.
pub open spec fn first_landing(moves: Seq<ChessMove>, to: (usize, usize), file: Option<usize>, i: int) -> Option<ChessMove>
    decreases moves.len() - i,
{
    if i < 0 || i >= moves.len() {
        None
    } else if moves[i].to == to && (match file { Some(f) => moves[i].from.1 == f, None => true }) {
        Some(moves[i])
    } else {
        first_landing(moves, to, file, i + 1)
    }
}

/// The move a SAN token names in the book's reading: castling by the king of the
/// side to move, otherwise the first legal move onto the destination square (the
/// two characters before any `=`), from the file a lower-case pawn letter gives.
pub open spec fn san_move(m: BoardModel, san: Seq<char>) -> Option<ChessMove> {
    let base = strip_marks(trim_ws(san));
    if short_castle(base) {
        match mover_king(m) {
            Some(k) => Some(mk_move(k.0 as int, k.1 as int, k.0 as int, k.1 + 2, MoveType::Castling)),
            None => None,
        }
    } else if long_castle(base) {
        match mover_king(m) {
            Some(k) => Some(mk_move(k.0 as int, k.1 as int, k.0 as int, k.1 - 2, MoveType::Castling)),
            None => None,
        }
    } else {
        let c0 = base[0];
        let is_pawn = (lowercase_char(c0) && c0 != 'x') || !uppercase_char(c0);
        let pre = base.take(promo_mark(base, 0));
        match last_two(pre) {
            Some(t) => match notation_square(t) {
                Some(to) => {
                    let file = if is_pawn && base.len() > 2 && lowercase_char(c0) && c0 != 'x' {
                        Some(file_index(c0))
                    } else {
                        None
                    };
                    first_landing(m.legal_moves(), to, file, 0)
                },
                None => None,
            },
            None => None,
        }
    }
}

/// The book can read the SAN token without failing: a castling side has a king
/// (on the c-file or beyond for the long castle), other tokens are not empty and
/// the destination cut does not split a character.
pub open spec fn san_readable(m: BoardModel, san: Seq<char>) -> bool {
    let base = strip_marks(trim_ws(san));
    if short_castle(base) {
        mover_king(m) is Some
    } else if long_castle(base) {
        mover_king(m) matches Some(k) && k.1 >= 2
    } else {
        base.len() > 0 && !splits_char(base.take(promo_mark(base, 0)))
    }
}

/// The book moves a `bm` record lists, in order: those the book can read.
pub open spec fn bm_moves(m: BoardModel, values: Seq<Seq<char>>) -> Seq<BookMove>
    decreases values.len(),
{
    if values.len() == 0 {
        Seq::empty()
    } else {
        let prev = bm_moves(m, values.drop_last());
        match san_move(m, values.last()) {
            Some(mv) => prev.push(BookMove { move_obj: mv, weight: 100 }),
            None => prev,
        }
    }
}

/// The book moves of the EPD fields after the position, in order.
pub open spec fn record_moves(m: BoardModel, fields: Seq<Seq<char>>) -> Seq<BookMove>
    decreases fields.len(),
{
    if fields.len() == 0 {
        Seq::empty()
    } else {
        let prev = record_moves(m, fields.drop_last());
        let tokens = split_ws(fields.last());
        if tokens.len() > 0 && tokens[0] == seq!['b', 'm'] {
            prev + bm_moves(m, tokens.drop_first())
        } else {
            prev
        }
    }
}

/// Every `bm` token of the EPD fields can be read.
pub open spec fn record_readable(m: BoardModel, fields: Seq<Seq<char>>) -> bool {
    forall|i: int, j: int| 0 <= i < fields.len() && 1 <= j < split_ws(fields[i]).len()
        && split_ws(fields[i])[0] == seq!['b', 'm'] ==> #[trigger] san_readable(m, split_ws(fields[i])[j])
}

/// The fields of an EPD line: the parts between `;`, trimmed.
pub open spec fn epd_fields(line: Seq<char>) -> Seq<Seq<char>> {
    split_on(line, ';').map_values(|p: Seq<char>| trim_ws(p))
}

/// The position of an EPD line, if its first field is a FEN.
pub open spec fn epd_position(line: Seq<char>) -> Option<BoardModel> {
    crate::board::fen::fen_model(trim_ws(epd_fields(line)[0]))
}

/// The book moves an EPD line gives for its position.
pub open spec fn epd_moves(line: Seq<char>) -> Seq<BookMove> {
    let f = epd_fields(line);
    record_moves(epd_position(line).unwrap(), f.subrange(1, f.len() as int))
}

/// An EPD line can be read without failing: when its position parses, its move
/// counters have room and every `bm` token can be read.
pub open spec fn epd_readable(line: Seq<char>) -> bool {
    epd_position(line) matches Some(m) ==> {
        let f = epd_fields(line);
        &&& m.counters_ok()
        &&& hashable(m)
        &&& record_readable(m, f.subrange(1, f.len() as int))
    }
}

/// The book after adding moves for a key: appended to those it already had.
pub open spec fn with_moves(book: Map<u64, Vec<BookMove>>, key: u64, moves: Seq<BookMove>) -> Map<u64, Seq<BookMove>> {
    book.map_values(|v: Vec<BookMove>| v@).insert(
        key,
        (if book.contains_key(key) { book[key]@ } else { Seq::empty() }) + moves,
    )
}

/// A line the loader skips: empty after trimming, or a comment.
pub open spec fn skipped_line(line: Seq<char>) -> bool {
    let t = trim_ws(line);
    t.len() == 0 || t[0] == '#'
}

/// The book after one line: a line that is not skipped and whose position parses
/// adds its moves, when it has any, after those already kept for its position.
pub open spec fn book_with_line(book: Map<u64, Seq<BookMove>>, line: Seq<char>) -> Map<u64, Seq<BookMove>> {
    let t = trim_ws(line);
    if skipped_line(line) || epd_position(t) is None || epd_moves(t).len() == 0 {
        book
    } else {
        let key = book_hash(epd_position(t).unwrap());
        book.insert(key, (if book.contains_key(key) { book[key] } else { Seq::empty() }) + epd_moves(t))
    }
}

/// The book after a list of lines, read in order.
pub open spec fn book_with_lines(book: Map<u64, Seq<BookMove>>, lines: Seq<Seq<char>>) -> Map<u64, Seq<BookMove>>
    decreases lines.len(),
{
    if lines.len() == 0 {
        book
    } else {
        book_with_line(book_with_lines(book, lines.drop_last()), lines.last())
    }
}

/// How many of the lines add moves to the book.
pub open spec fn lines_added(lines: Seq<Seq<char>>) -> nat
    decreases lines.len(),
{
    if lines.len() == 0 {
        0
    } else {
        let t = trim_ws(lines.last());
        lines_added(lines.drop_last()) + (if skipped_line(lines.last()) || epd_position(t) is None || epd_moves(t).len() == 0 { 0nat } else { 1nat })
    }
}

/// The text of each line.
pub open spec fn line_texts(lines: Seq<String>) -> Seq<Seq<char>> {
    lines.map_values(|s: String| s@)
}

pub struct OpeningBook {
    pub positions: HashMap<u64, Vec<BookMove>>,
    pub loaded: bool,
}

impl OpeningBook {
    /// The book's moves per key, as sequences.
    pub open spec fn entries(&self) -> Map<u64, Seq<BookMove>> {
        self.positions@.map_values(|v: Vec<BookMove>| v@)
    }

    /// The heaviest book move kept for a position (the last among equals), if any.
    pub open spec fn book_move_for(&self, m: BoardModel) -> Option<ChessMove> {
        if self.entries().contains_key(book_hash(m)) && self.entries()[book_hash(m)].len() > 0 {
            let s = self.entries()[book_hash(m)];
            Some(s[heaviest(s, s.len() as int)].move_obj)
        } else {
            None::<ChessMove>
        }
    }

    pub fn new() -> (b: Self)
        ensures
            b.positions@ == Map::<u64, Vec<BookMove>>::empty(),
            !b.loaded,
    {
        OpeningBook { positions: HashMap::new(), loaded: false }
    }

    /// Reads EPD lines into the book, skipping empty lines and comments; the
    /// number of positions that received moves, or the first FEN error.
    pub fn load_epd_lines(&mut self, lines: &Vec<String>) -> (r: Result<usize, String>)
        requires
            forall|i: int| 0 <= i < lines@.len() ==> epd_readable(#[trigger] trim_ws(lines@[i]@)),
        ensures
            r is Ok <==> forall|i: int| 0 <= i < lines@.len() && !skipped_line(lines@[i]@)
                ==> (#[trigger] epd_position(trim_ws(lines@[i]@))) is Some,
            r is Ok ==> final(self).loaded,
            r matches Ok(n) ==> n == lines_added(line_texts(lines@))
                && final(self).entries() == book_with_lines(old(self).entries(), line_texts(lines@)),
            r is Err ==> final(self).loaded == old(self).loaded && exists|j: int| {
                &&& 0 <= j < lines@.len()
                &&& !skipped_line(lines@[j]@)
                &&& epd_position(trim_ws(lines@[j]@)) is None
                &&& final(self).entries() == book_with_lines(old(self).entries(), line_texts(lines@).take(j))
            },
    {
        let mut count: usize = 0;
        let mut i: usize = 0;
        while i < lines.len()
            invariant
                i <= lines@.len(),
                count <= i,
                forall|k: int| 0 <= k < lines@.len() ==> epd_readable(#[trigger] trim_ws(lines@[k]@)),
                forall|k: int| 0 <= k < i && !skipped_line(lines@[k]@) ==> (#[trigger] epd_position(trim_ws(lines@[k]@))) is Some,
                self.loaded == old(self).loaded,
                count == lines_added(line_texts(lines@).take(i as int)),
                self.entries() == book_with_lines(old(self).entries(), line_texts(lines@).take(i as int)),
            decreases lines@.len() - i,
        {
            let raw = chars_of(lines[i].as_str());
            let line = trim(&raw);
            let ghost texts = line_texts(lines@);
            let ghost before = self.entries();
            proof {
                assert(trim_ws(lines@[i as int]@) == line@);
                assert(texts.take(i + 1).drop_last() =~= texts.take(i as int));
                assert(texts.take(i + 1).last() == lines@[i as int]@);
            }
            if line.len() == 0 || line[0] == '#' {
                i = i + 1;
                continue;
            }
            let ghost positions_before = self.positions@;
            let added = self.parse_epd_line(&line);
            proof {
                if added matches Ok(true) {
                    let key = book_hash(epd_position(line@).unwrap());
                    assert(before == positions_before.map_values(|v: Vec<BookMove>| v@));
                    assert(self.entries() =~= before.insert(key,
                        (if before.contains_key(key) { before[key] } else { Seq::empty() }) + epd_moves(line@)));
                }
                if added matches Ok(false) {
                    assert(self.entries() =~= before);
                }
            }
            match added {
                Ok(true) => {
                    count = count + 1;
                },
                Ok(false) => {},
                Err(e) => {
                    proof {
                        assert(self.entries() =~= before);
                        assert(!skipped_line(lines@[i as int]@));
                    }
                    return Err(e);
                },
            }
            i = i + 1;
        }
        proof {
            assert(line_texts(lines@).take(lines@.len() as int) =~= line_texts(lines@));
        }
        self.loaded = true;
        Ok(count)
    }

    /// Reads one EPD line: the moves of its `bm` fields are added to the book for
    /// its position. Whether any were added, or an error when the FEN does not parse.
    fn parse_epd_line(&mut self, line: &Vec<char>) -> (r: Result<bool, String>)
        requires
            epd_readable(line@),
        ensures
            (r is Err) == (epd_position(line@) is None),
            r matches Ok(added) ==> added == (epd_moves(line@).len() > 0),
            r matches Ok(added) ==> final(self).loaded == old(self).loaded,
            r matches Ok(added) ==> (if added {
                final(self).entries() == with_moves(old(self).positions@, book_hash(epd_position(line@).unwrap()),
                    epd_moves(line@))
            } else {
                final(self).positions@ == old(self).positions@
            }),
            r is Err ==> final(self).positions@ == old(self).positions@ && final(self).loaded == old(self).loaded,
    {
        let pieces = split_on_char(line, ';');
        let ghost fields = epd_fields(line@);
        let mut parts: Vec<Vec<char>> = Vec::new();
        let mut k: usize = 0;
        while k < pieces.len()
            invariant
                k <= pieces@.len(),
                pieces@.len() == split_on(line@, ';').len(),
                forall|i: int| 0 <= i < pieces@.len() ==> #[trigger] pieces@[i]@ == split_on(line@, ';')[i],
                parts@.len() == k,
                forall|i: int| 0 <= i < k ==> #[trigger] parts@[i]@ == trim_ws(split_on(line@, ';')[i]),
            decreases pieces@.len() - k,
        {
            parts.push(trim(&pieces[k]));
            k = k + 1;
        }
        proof {
            crate::text::lemma_split_on_nonempty(line@, ';');
            assert(parts@.len() == fields.len());
            assert forall|i: int| 0 <= i < fields.len() implies #[trigger] fields[i] == parts@[i]@ by {}
        }
        let fen_part = trim(&parts[0]);
        let mut fen_text = String::new();
        let mut c: usize = 0;
        while c < fen_part.len()
            invariant
                c <= fen_part@.len(),
                fen_text@ =~= fen_part@.take(c as int),
            decreases fen_part@.len() - c,
        {
            push_char(&mut fen_text, fen_part[c]);
            c = c + 1;
        }
        assert(fen_part@.take(fen_part@.len() as int) =~= fen_part@);
        let board = match Board::from_fen(fen_text.as_str()) {
            Ok(b) => b,
            Err(e) => {
                let mut msg = String::from_str("Invalid FEN in EPD: ");
                msg.append(e.as_str());
                return Err(msg);
            },
        };
        let ghost m = board@;
        let ghost rest = fields.subrange(1, fields.len() as int);
        let mut moves: Vec<BookMove> = Vec::new();
        let mut p: usize = 1;
        while p < parts.len()
            invariant
                1 <= p <= parts@.len(),
                parts@.len() == fields.len(),
                forall|i: int| 0 <= i < fields.len() ==> #[trigger] fields[i] == parts@[i]@,
                rest == fields.subrange(1, fields.len() as int),
                m == board@,
                m.counters_ok(),
                record_readable(m, rest),
                moves@ == record_moves(m, rest.take(p - 1)),
            decreases parts@.len() - p,
        {
            let tokens = split_whitespace(&parts[p]);
            assert(rest.take(p as int).drop_last() =~= rest.take(p - 1));
            assert(rest.take(p as int).last() == fields[p as int]);
            if tokens.len() > 0 && chars_equal(&tokens[0], "bm") {
                proof {
                    reveal_strlit("bm");
                    assert("bm"@ =~= seq!['b', 'm']);
                }
                let ghost values = split_ws(fields[p as int]).drop_first();
                let ghost before = moves@;
                let mut t: usize = 1;
                while t < tokens.len()
                    invariant
                        1 <= t <= tokens@.len(),
                        tokens@.len() == split_ws(fields[p as int]).len(),
                        forall|i: int| 0 <= i < tokens@.len() ==> #[trigger] tokens@[i]@ == split_ws(fields[p as int])[i],
                        split_ws(fields[p as int])[0] == seq!['b', 'm'],
                        values == split_ws(fields[p as int]).drop_first(),
                        1 <= p < parts@.len(),
                        parts@.len() == fields.len(),
                        rest == fields.subrange(1, fields.len() as int),
                        m == board@,
                        m.counters_ok(),
                        record_readable(m, rest),
                        moves@ == before + bm_moves(m, values.take(t - 1)),
                    decreases tokens@.len() - t,
                {
                    assert(values.take(t as int).drop_last() =~= values.take(t - 1));
                    assert(values.take(t as int).last() == tokens@[t as int]@);
                    assert(rest[p - 1] == fields[p as int]);
                    assert(san_readable(m, split_ws(rest[p - 1])[t as int]));
                    match Self::parse_san_move(&board, &tokens[t]) {
                        Ok(mv) => {
                            moves.push(BookMove { move_obj: mv, weight: 100 });
                        },
                        Err(_) => {},
                    }
                    assert(moves@ =~= before + bm_moves(m, values.take(t as int)));
                    t = t + 1;
                }
                assert(values.take(tokens@.len() - 1) =~= values);
            } else {
                proof {
                    reveal_strlit("bm");
                    assert("bm"@ =~= seq!['b', 'm']);
                }
            }
            assert(moves@ =~= record_moves(m, rest.take(p as int)));
            p = p + 1;
        }
        assert(rest.take(parts@.len() - 1) =~= rest);
        if moves.len() == 0 {
            return Ok(false);
        }
        let hash = self.position_hash(&board);
        let mut existing: Vec<BookMove> = match self.positions.remove(&hash) {
            Some(v) => v,
            None => Vec::new(),
        };
        let ghost prior = existing@;
        let mut q: usize = 0;
        while q < moves.len()
            invariant
                q <= moves@.len(),
                existing@ == prior + moves@.take(q as int),
            decreases moves@.len() - q,
        {
            existing.push(moves[q]);
            assert(moves@.take(q + 1) =~= moves@.take(q as int).push(moves@[q as int]));
            q = q + 1;
        }
        assert(moves@.take(moves@.len() as int) =~= moves@);
        self.positions.insert(hash, existing);
        proof {
            assert(self.entries() =~= with_moves(old(self).positions@, hash, moves@));
        }
        Ok(true)
    }

    /// Whether the book can read a SAN token on the board without failing (see
    /// `san_readable`).
    pub fn san_token_readable(board: &Board, san: &Vec<char>) -> (r: bool)
        ensures
            r == san_readable(board@, san@),
    {
        let trimmed = trim(san);
        let base = strip_check_marks(&trimmed);
        let ghost b = base@;
        proof {
            reveal_strlit("O-O");
            reveal_strlit("0-0");
            reveal_strlit("O-O-O");
            reveal_strlit("0-0-0");
            assert("O-O"@ =~= seq!['O', '-', 'O']);
            assert("0-0"@ =~= seq!['0', '-', '0']);
            assert("O-O-O"@ =~= seq!['O', '-', 'O', '-', 'O']);
            assert("0-0-0"@ =~= seq!['0', '-', '0', '-', '0']);
        }
        if chars_equal(&base, "O-O") || chars_equal(&base, "0-0") {
            return board.find_king(board.turn).is_some();
        }
        if chars_equal(&base, "O-O-O") || chars_equal(&base, "0-0-0") {
            return match board.find_king(board.turn) {
                Some(k) => k.1 >= 2,
                None => false,
            };
        }
        if base.len() == 0 {
            return false;
        }
        let mut target_end: usize = 0;
        while target_end < base.len() && base[target_end] != '='
            invariant
                target_end <= base@.len(),
                promo_mark(b, 0) == promo_mark(b, target_end as int),
                b == base@,
            decreases base@.len() - target_end,
        {
            target_end = target_end + 1;
        }
        let ghost pre = b.take(target_end as int);
        if target_end == 0 {
            return true;
        }
        let last = base[target_end - 1];
        assert(pre.last() == last);
        let splits = if ascii_char(last) {
            target_end >= 2 && !ascii_char(base[target_end - 2])
        } else {
            (last as u32) >= 0x800
        };
        proof {
            if target_end >= 2 {
                assert(pre[pre.len() - 2] == b[target_end - 2]);
            }
        }
        !splits
    }

    /// Whether the book can read an EPD line without failing (see `epd_readable`),
    /// the line taken without its surrounding whitespace.
    pub fn epd_line_readable(line: &String) -> (r: bool)
        ensures
            r == epd_readable(trim_ws(line@)),
    {
        let raw = chars_of(line.as_str());
        let text = trim(&raw);
        let pieces = split_on_char(&text, ';');
        let ghost fields = epd_fields(text@);
        let mut parts: Vec<Vec<char>> = Vec::new();
        let mut k: usize = 0;
        while k < pieces.len()
            invariant
                k <= pieces@.len(),
                pieces@.len() == split_on(text@, ';').len(),
                forall|i: int| 0 <= i < pieces@.len() ==> #[trigger] pieces@[i]@ == split_on(text@, ';')[i],
                parts@.len() == k,
                forall|i: int| 0 <= i < k ==> #[trigger] parts@[i]@ == trim_ws(split_on(text@, ';')[i]),
            decreases pieces@.len() - k,
        {
            parts.push(trim(&pieces[k]));
            k = k + 1;
        }
        proof {
            crate::text::lemma_split_on_nonempty(text@, ';');
            assert(parts@.len() == fields.len());
            assert forall|i: int| 0 <= i < fields.len() implies #[trigger] fields[i] == parts@[i]@ by {}
        }
        let fen_part = trim(&parts[0]);
        let mut fen_text = String::new();
        let mut c: usize = 0;
        while c < fen_part.len()
            invariant
                c <= fen_part@.len(),
                fen_text@ =~= fen_part@.take(c as int),
            decreases fen_part@.len() - c,
        {
            push_char(&mut fen_text, fen_part[c]);
            c = c + 1;
        }
        assert(fen_part@.take(fen_part@.len() as int) =~= fen_part@);
        let board = match Board::from_fen(fen_text.as_str()) {
            Ok(b) => b,
            Err(_) => {
                return true;
            },
        };
        let ghost m = board@;
        if board.halfmove_clock == u32::MAX || board.fullmove_number == u32::MAX {
            return false;
        }
        match board.en_passant_square {
            Some(ep) => {
                if (ep.0 as u128) * 8 + (ep.1 as u128) > usize::MAX as u128 {
                    return false;
                }
            },
            None => {},
        }
        let ghost rest = fields.subrange(1, fields.len() as int);
        let mut p: usize = 1;
        while p < parts.len()
            invariant
                1 <= p <= parts@.len(),
                parts@.len() == fields.len(),
                forall|i: int| 0 <= i < fields.len() ==> #[trigger] fields[i] == parts@[i]@,
                rest == fields.subrange(1, fields.len() as int),
                m == board@,
                fields == epd_fields(text@),
                text@ == trim_ws(line@),
                epd_position(text@) == Some(m),
                forall|i: int, j: int| 0 <= i < p - 1 && 1 <= j < split_ws(rest[i]).len()
                    && split_ws(rest[i])[0] == seq!['b', 'm'] ==> #[trigger] san_readable(m, split_ws(rest[i])[j]),
            decreases parts@.len() - p,
        {
            let tokens = split_whitespace(&parts[p]);
            assert(rest[p - 1] == fields[p as int]);
            proof {
                reveal_strlit("bm");
                assert("bm"@ =~= seq!['b', 'm']);
            }
            if tokens.len() > 0 && chars_equal(&tokens[0], "bm") {
                let mut t: usize = 1;
                while t < tokens.len()
                    invariant
                        1 <= t <= tokens@.len(),
                        tokens@.len() == split_ws(rest[p - 1]).len(),
                        forall|i: int| 0 <= i < tokens@.len() ==> #[trigger] tokens@[i]@ == split_ws(rest[p - 1])[i],
                        split_ws(rest[p - 1])[0] == seq!['b', 'm'],
                        1 <= p < parts@.len(),
                        parts@.len() == fields.len(),
                        rest == fields.subrange(1, fields.len() as int),
                        m == board@,
                        fields == epd_fields(text@),
                        text@ == trim_ws(line@),
                        epd_position(text@) == Some(m),
                        forall|i: int, j: int| 0 <= i < p - 1 && 1 <= j < split_ws(rest[i]).len()
                            && split_ws(rest[i])[0] == seq!['b', 'm'] ==> #[trigger] san_readable(m, split_ws(rest[i])[j]),
                        forall|j: int| 1 <= j < t ==> #[trigger] san_readable(m, split_ws(rest[p - 1])[j]),
                    decreases tokens@.len() - t,
                {
                    if !Self::san_token_readable(&board, &tokens[t]) {
                        assert(!san_readable(m, split_ws(rest[p - 1])[t as int]));
                        assert(!record_readable(m, rest));
                        return false;
                    }
                    t = t + 1;
                }
            }
            p = p + 1;
        }
        assert(record_readable(m, rest));
        true
    }

    /// The move a SAN token names in the book's reading.
    fn parse_san_move(board: &Board, san: &Vec<char>) -> (r: Result<ChessMove, String>)
        requires
            board@.counters_ok(),
            san_readable(board@, san@),
        ensures
            match san_move(board@, san@) {
                Some(mv) => r == Ok::<ChessMove, String>(mv),
                None => r is Err,
            },
    {
        let trimmed = trim(san);
        let base = strip_check_marks(&trimmed);
        let ghost b = base@;
        proof {
            reveal_strlit("O-O");
            reveal_strlit("0-0");
            reveal_strlit("O-O-O");
            reveal_strlit("0-0-0");
            assert("O-O"@ =~= seq!['O', '-', 'O']);
            assert("0-0"@ =~= seq!['0', '-', '0']);
            assert("O-O-O"@ =~= seq!['O', '-', 'O', '-', 'O']);
            assert("0-0-0"@ =~= seq!['0', '-', '0', '-', '0']);
        }
        if chars_equal(&base, "O-O") || chars_equal(&base, "0-0") {
            let king_pos = Self::find_king(board);
            return Ok(ChessMove::castling(king_pos.0, king_pos.1, king_pos.0, king_pos.1 + 2));
        }
        if chars_equal(&base, "O-O-O") || chars_equal(&base, "0-0-0") {
            let king_pos = Self::find_king(board);
            return Ok(ChessMove::castling(king_pos.0, king_pos.1, king_pos.0, king_pos.1 - 2));
        }
        let c0 = base[0];
        let is_pawn = if is_lowercase(c0) && c0 != 'x' {
            true
        } else if !is_uppercase(c0) {
            true
        } else {
            false
        };
        let mut target_end: usize = 0;
        while target_end < base.len() && base[target_end] != '='
            invariant
                target_end <= base@.len(),
                promo_mark(b, 0) == promo_mark(b, target_end as int),
                b == base@,
            decreases base@.len() - target_end,
        {
            target_end = target_end + 1;
        }
        let ghost pre = b.take(target_end as int);
        if target_end < 2 || !ascii_char(base[target_end - 1]) || !ascii_char(base[target_end - 2]) {
            return Err(String::from_str("Invalid move notation"));
        }
        assert(last_two(pre) == Some(b.subrange(target_end - 2, target_end as int)));
        let t0 = base[target_end - 2];
        let t1 = base[target_end - 1];
        if !(t1 >= '1' && t1 <= '8') {
            return Err(String::from_str("Invalid rank"));
        }
        let target_rank: usize = 7 - ((t1 as u32) - 49) as usize;
        let target_file = file_of(t0);
        let moves = board.generate_moves();
        let ghost legal = moves@;
        let ghost file = if is_pawn && b.len() > 2 && lowercase_char(c0) && c0 != 'x' { Some(file_index(c0)) } else { None::<usize> };
        proof {
            assert(b == strip_marks(trim_ws(san@)));
            assert(!short_castle(b) && !long_castle(b));
            assert(notation_square(b.subrange(target_end - 2, target_end as int)) == Some((target_rank, target_file)));
            assert(san_move(board@, san@) == first_landing(legal, (target_rank, target_file), file, 0));
        }
        let mut i: usize = 0;
        while i < moves.len()
            invariant
                i <= moves@.len(),
                moves@ == legal,
                legal == board@.legal_moves(),
                first_landing(legal, (target_rank, target_file), file, 0)
                    == first_landing(legal, (target_rank, target_file), file, i as int),
                file == (if is_pawn && b.len() > 2 && lowercase_char(c0) && c0 != 'x' { Some(file_index(c0)) } else { None::<usize> }),
                san_move(board@, san@) == first_landing(legal, (target_rank, target_file), file, 0),
                b == base@,
                b.len() > 0,
                c0 == b[0],
            decreases moves@.len() - i,
        {
            let chess_move = moves[i];
            let mut fits = chess_move.to.0 == target_rank && chess_move.to.1 == target_file;
            if fits && is_pawn && base.len() > 2 && is_lowercase(c0) && c0 != 'x' {
                let source_file = file_of(c0);
                if chess_move.from.1 != source_file {
                    fits = false;
                }
            }
            if fits {
                return Ok(chess_move);
            }
            i = i + 1;
        }
        Err(String::from_str("Could not parse move"))
    }

    /// The square of the king of the side to move.
    fn find_king(board: &Board) -> (k: (usize, usize))
        requires
            mover_king(board@) is Some,
        ensures
            k == mover_king(board@).unwrap(),
            on_board(k.0 as int, k.1 as int),
    {
        proof {
            crate::board::movegen::lemma_find_on_board(board@, crate::board::board::king_of(board@.turn), 0);
        }
        match board.find_king(board.turn) {
            Some(k) => k,
            None => (0, 0),
        }
    }

    /// The square a two-character coordinate names.
    pub fn parse_square_notation(&self, square: &str) -> (r: Result<(usize, usize), String>)
        ensures
            match notation_square(square@) {
                Some(sq) => r == Ok::<(usize, usize), String>(sq),
                None => r is Err,
            },
    {
        let chars = chars_of(square);
        if chars.len() != 2 {
            return Err(String::from_str("Invalid square notation"));
        }
        let file = file_of(chars[0]);
        let c = chars[1];
        if !(c >= '1' && c <= '8') {
            return Err(String::from_str("Invalid rank"));
        }
        let r: usize = ((c as u32) - 49) as usize;
        Ok((7 - r, file))
    }

    /// The index of a file letter; other letters give 0.
    pub fn file_to_index(&self, file: char) -> (i: usize)
        ensures
            i == file_index(file),
    {
        file_of(file)
    }

    /// The book's hash of a position.
    pub fn position_hash(&self, board: &Board) -> (h: u64)
        requires
            hashable(board@),
        ensures
            h == book_hash(board@),
    {
        let ghost m = board@;
        let mut hash: u64 = 0;
        let mut i: usize = 0;
        while i < 64
            invariant
                i <= 64,
                m == board@,
                hash == book_squares(m, i as int),
            decreases 64 - i,
        {
            let piece = board.squares[i / 8][i % 8];
            if piece != Piece::Empty {
                hash = hash ^ Self::zobrist_piece(piece, i / 8, i % 8);
            }
            i = i + 1;
        }
        if board.turn == Color::Black {
            hash = hash ^ 0x8f1d3642e6842609u64;
        }
        hash = hash ^ Self::zobrist_castling(board);
        if let Some((ep_rank, ep_file)) = board.en_passant_square {
            hash = hash ^ 0xabcdef0123456789u64.wrapping_mul(((ep_rank * 8 + ep_file) as u64).wrapping_add(1));
        }
        hash
    }

    fn zobrist_piece(piece: Piece, rank: usize, file: usize) -> (h: u64)
        requires
            piece != Piece::Empty,
            rank < 8,
            file < 8,
        ensures
            h == piece_key(piece_id(piece), (rank * 8 + file) as u64),
    {
        let piece_id: u64 = match piece {
            Piece::WhitePawn => 0,
            Piece::WhiteKnight => 1,
            Piece::WhiteBishop => 2,
            Piece::WhiteRook => 3,
            Piece::WhiteQueen => 4,
            Piece::WhiteKing => 5,
            Piece::BlackPawn => 6,
            Piece::BlackKnight => 7,
            Piece::BlackBishop => 8,
            Piece::BlackRook => 9,
            Piece::BlackQueen => 10,
            _ => 11,
        };
        let square_idx = rank * 8 + file;
        let mut hash = 0x9e3779b97f4a7c15u64;
        hash = hash.wrapping_mul(piece_id.wrapping_add(1)).wrapping_mul(0xbf58476d1ce4e5b9);
        hash = hash ^ (square_idx as u64).wrapping_mul(0x94d049bb133111eb);
        hash
    }

    fn zobrist_castling(board: &Board) -> (h: u64)
        ensures
            h == rights_key(board@),
    {
        let rights = board.castling_rights;
        let mut hash = 0u64;
        if rights.white_kingside {
            hash = hash ^ 0x1234567890abcdef;
        }
        if rights.white_queenside {
            hash = hash ^ 0x2345678901bcdef0;
        }
        if rights.black_kingside {
            hash = hash ^ 0x3456789012cdef01;
        }
        if rights.black_queenside {
            hash = hash ^ 0x456789023def012;
        }
        hash
    }

    /// The heaviest book move for the position (the last among equals), if the
    /// book knows the position.
    pub fn get_book_move(&self, board: &Board) -> (r: Option<ChessMove>)
        requires
            hashable(board@),
        ensures
            r == self.book_move_for(board@),
    {
        let hash = self.position_hash(board);
        match self.positions.get(&hash) {
            Some(moves) => {
                if moves.len() == 0 {
                    return None;
                }
                let ghost s = moves@;
                let mut best: usize = 0;
                let mut i: usize = 1;
                while i < moves.len()
                    invariant
                        1 <= i <= s.len(),
                        s == moves@,
                        best == heaviest(s, i as int),
                        best < i,
                    decreases s.len() - i,
                {
                    if moves[i].weight >= moves[best].weight {
                        best = i;
                    }
                    i = i + 1;
                }
                Some(moves[best].move_obj)
            },
            None => None,
        }
    }

    /// A copy of the book moves for the position, if the book knows it.
    pub fn get_all_book_moves(&self, board: &Board) -> (r: Option<Vec<BookMove>>)
        requires
            hashable(board@),
        ensures
            match r {
                Some(v) => self.entries().contains_key(book_hash(board@)) && v@ == self.entries()[book_hash(board@)],
                None => !self.entries().contains_key(book_hash(board@)),
            },
    {
        let hash = self.position_hash(board);
        match self.positions.get(&hash) {
            Some(moves) => {
                let mut copy: Vec<BookMove> = Vec::new();
                let mut i: usize = 0;
                while i < moves.len()
                    invariant
                        i <= moves@.len(),
                        copy@ =~= moves@.take(i as int),
                    decreases moves@.len() - i,
                {
                    copy.push(moves[i]);
                    i = i + 1;
                }
                Some(copy)
            },
            None => None,
        }
    }

    pub fn is_loaded(&self) -> (r: bool)
        ensures
            r == self.loaded,
    {
        self.loaded
    }

    /// The number of positions the book knows.
    pub fn size(&self) -> (n: usize)
        ensures
            n == self.positions@.len(),
    {
        self.positions.len()
    }

    /// Forgets every position; the book counts as not loaded.
    pub fn clear(&mut self)
        ensures
            final(self).positions@ == Map::<u64, Vec<BookMove>>::empty(),
            !final(self).loaded,
    {
        self.positions.clear();
        self.loaded = false;
    }

    pub fn contains_position(&self, board: &Board) -> (r: bool)
        requires
            hashable(board@),
        ensures
            r == self.positions@.contains_key(book_hash(board@)),
    {
        let hash = self.position_hash(board);
        self.positions.contains_key(&hash)
    }
}

/// The index of a file letter; other letters give 0.
fn file_of(file: char) -> (i: usize)
    ensures
        i == file_index(file),
{
    match file {
        'a' => 0,
        'b' => 1,
        'c' => 2,
        'd' => 3,
        'e' => 4,
        'f' => 5,
        'g' => 6,
        'h' => 7,
        _ => 0,
    }
}

/// A character that takes one byte in UTF-8.
fn ascii_char(c: char) -> (r: bool)
    ensures
        r == (utf8_width(c) == 1),
{
    (c as u32) < 0x80
}

/// The text without trailing `#` and `+` marks.
fn strip_check_marks(s: &Vec<char>) -> (r: Vec<char>)
    ensures
        r@ == strip_marks(s@),
{
    let mut n = s.len();
    assert(s@.take(n as int) =~= s@);
    while n > 0 && (s[n - 1] == '#' || s[n - 1] == '+')
        invariant
            n <= s@.len(),
            strip_marks(s@) == strip_marks(s@.take(n as int)),
        decreases n,
    {
        assert(s@.take(n as int).drop_last() =~= s@.take(n - 1));
        n = n - 1;
    }
    let mut out: Vec<char> = Vec::new();
    let mut k: usize = 0;
    while k < n
        invariant
            k <= n <= s@.len(),
            out@ =~= s@.take(k as int),
        decreases n - k,
    {
        out.push(s[k]);
        k = k + 1;
    }
    proof {
        assert(strip_marks(s@.take(n as int)) == s@.take(n as int));
    }
    out
}

} // verus!
