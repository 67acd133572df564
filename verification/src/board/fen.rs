//! Reading and writing positions in Forsyth-Edwards Notation.

use vstd::prelude::*;
use crate::board::board::{
    Board, BoardModel, CastlingRights, Color, square_of, rights_parse, rights_text,
};
use crate::board::pieces::{Piece, letter_piece, piece_letter, char_to_piece, piece_to_fen_char};
use crate::text::{
    push_char, push_decimal, decimal, chars_of, split_whitespace, split_on_char, split_ws, split_on,
    parse_u32, parse_u32_spec, is_digit, digit_value, digit_char,
};
use vstd::string::StringExecFns;

verus! {

/// The state after reading the characters of one FEN rank: the next file and the
/// row read so far, or `None` once the rank is malformed.
pub open spec fn rank_state(s: Seq<char>) -> Option<(int, Seq<Piece>)>
    decreases s.len(),
{
    if s.len() == 0 {
        Some((0, Seq::new(8, |f: int| Piece::Empty)))
    } else {
        match rank_state(s.drop_last()) {
            None => None,
            Some((idx, row)) => {
                let c = s.last();
                if idx >= 8 {
                    None
                } else if is_digit(c) {
                    Some((idx + digit_value(c), row))
                } else {
                    match letter_piece(c) {
                        None => None,
                        Some(p) => Some((idx + 1, row.update(idx, p))),
                    }
                }
            },
        }
    }
}

/// The row that one FEN rank describes: digits skip empty squares, letters place
/// pieces, and the rank must cover exactly eight files.
pub open spec fn rank_row(s: Seq<char>) -> Option<Seq<Piece>> {
    match rank_state(s) {
        Some((idx, row)) => if idx == 8 { Some(row) } else { None },
        None => None,
    }
}

/// The side to move that a FEN field names.
pub open spec fn turn_of(s: Seq<char>) -> Option<Color> {
    if s == seq!['w'] { Some(Color::White) } else if s == seq!['b'] { Some(Color::Black) } else { None }
}

/// The en passant square that a FEN field names: `-` for none.
pub open spec fn ep_of(s: Seq<char>) -> Option<Option<(usize, usize)>> {
    if s == seq!['-'] {
        Some(None)
    } else {
        match square_of(s) {
            Some(sq) => Some(Some(sq)),
            None => None,
        }
    }
}

/// The position that a FEN text describes, or `None` when `from_fen` rejects it:
/// six whitespace-separated fields, the first made of eight `/`-separated ranks.
pub open spec fn fen_model(fen: Seq<char>) -> Option<BoardModel> {
    let parts = split_ws(fen);
    if parts.len() != 6 {
        None
    } else {
        let ranks = split_on(parts[0], '/');
        if ranks.len() != 8 {
            None
        } else if !(forall|i: int| 0 <= i < 8 ==> (#[trigger] rank_row(ranks[i])) is Some) {
            None
        } else if turn_of(parts[1]) is None || rights_parse(parts[2]) is None || ep_of(parts[3]) is None
            || parse_u32_spec(parts[4]) is None || parse_u32_spec(parts[5]) is None {
            None
        } else {
            Some(BoardModel {
                grid: Seq::new(8, |i: int| rank_row(ranks[i]).unwrap()),
                turn: turn_of(parts[1]).unwrap(),
                castling: rights_parse(parts[2]).unwrap(),
                en_passant: ep_of(parts[3]).unwrap(),
                halfmove: parse_u32_spec(parts[4]).unwrap() as int,
                fullmove: parse_u32_spec(parts[5]).unwrap() as int,
            })
        }
    }
}

/// The text of one row in FEN: runs of empty squares as a digit, pieces as letters.
pub open spec fn row_state(row: Seq<Piece>) -> (Seq<char>, int)
    decreases row.len(),
{
    if row.len() == 0 {
        (Seq::empty(), 0)
    } else {
        let st = row_state(row.drop_last());
        let p = row.last();
        if p == Piece::Empty {
            (st.0, st.1 + 1)
        } else {
            (st.0 + (if st.1 > 0 { seq![digit_char(st.1)] } else { Seq::empty() }) + seq![piece_letter(p)], 0)
        }
    }
}

pub open spec fn row_text(row: Seq<Piece>) -> Seq<char> {
    let st = row_state(row);
    st.0 + (if st.1 > 0 { seq![digit_char(st.1)] } else { Seq::empty() })
}

/// The placement field: the eight rows from rank index 0 on, separated by `/`.
pub open spec fn placement_prefix(g: Seq<Seq<Piece>>, n: int) -> Seq<char>
    decreases n,
{
    if n <= 0 {
        Seq::empty()
    } else if n == 1 {
        row_text(g[0])
    } else {
        placement_prefix(g, n - 1) + seq!['/'] + row_text(g[n - 1])
    }
}

/// The text of the en passant field.
pub open spec fn ep_text(ep: Option<(usize, usize)>) -> Seq<char> {
    match ep {
        None => seq!['-'],
        Some(sq) => seq![((97 + sq.1 % 256) as u8) as char, ((56 - sq.0 % 256) as u8) as char],
    }
}

/// The FEN text that `to_fen` writes for a position.
pub open spec fn fen_text(m: BoardModel) -> Seq<char> {
    placement_prefix(m.grid, 8) + seq![' '] + (if m.turn == Color::White { seq!['w'] } else { seq!['b'] })
        + seq![' '] + rights_text(m.castling) + seq![' '] + ep_text(m.en_passant) + seq![' ']
        + decimal(m.halfmove as nat) + seq![' '] + decimal(m.fullmove as nat)
}

/// Parses one rank of the placement field.
fn parse_rank(s: &Vec<char>) -> (r: Result<[Piece; 8], String>)
    ensures
        rank_row(s@) is Some ==> (r matches Ok(row) && row@ == rank_row(s@).unwrap()),
        rank_row(s@) is None ==> r is Err,
{
    let mut row = [Piece::Empty; 8];
    let mut file_idx: usize = 0;
    let mut i: usize = 0;
    assert(row@ =~= Seq::new(8, |f: int| Piece::Empty));
    while i < s.len()
        invariant
            i <= s@.len(),
            rank_state(s@.take(i as int)) == Some((file_idx as int, row@)),
            file_idx <= 16,
        decreases s@.len() - i,
    {
        let c = s[i];
        assert(s@.take(i + 1).drop_last() =~= s@.take(i as int));
        assert(s@.take(i + 1).last() == c);
        if file_idx >= 8 {
            proof {
                lemma_rank_state_stays_none(s@, i as int + 1);
            }
            return Err(String::from_str("Too many files in rank"));
        }
        if '0' <= c && c <= '9' {
            file_idx = file_idx + (c as u32 - 48) as usize;
        } else {
            match char_to_piece(c) {
                Ok(p) => {
                    row[file_idx] = p;
                    file_idx = file_idx + 1;
                },
                Err(e) => {
                    proof {
                        lemma_rank_state_stays_none(s@, i as int + 1);
                    }
                    return Err(e);
                },
            }
        }
        i = i + 1;
    }
    assert(s@.take(s@.len() as int) =~= s@);
    if file_idx != 8 {
        return Err(String::from_str("Invalid number of files in rank"));
    }
    Ok(row)
}

/// Once a rank is malformed, reading further characters keeps it malformed.
pub proof fn lemma_rank_state_stays_none(s: Seq<char>, i: int)
    requires
        0 <= i <= s.len(),
        rank_state(s.take(i)) is None,
    ensures
        rank_state(s) is None,
    decreases s.len() - i,
{
    if i < s.len() {
        assert(s.take(i + 1).drop_last() =~= s.take(i));
        lemma_rank_state_stays_none(s, i + 1);
    } else {
        assert(s.take(i) =~= s);
    }
}

fn parse_square_chars(s: &Vec<char>) -> (r: Option<(usize, usize)>)
    ensures
        r == square_of(s@),
{
    if s.len() == 2 && 'a' <= s[0] && s[0] <= 'h' && '1' <= s[1] && s[1] <= '8' {
        let file = (s[0] as u32 - 97) as usize;
        let rank = (8 - (s[1] as u32 - 48)) as usize;
        Some((rank, file))
    } else {
        None
    }
}

fn is_single(s: &Vec<char>, c: char) -> (r: bool)
    ensures
        r == (s@ == seq![c]),
{
    let r = s.len() == 1 && s[0] == c;
    assert(r ==> s@ =~= seq![c]);
    r
}

fn rights_from_chars(s: &Vec<char>) -> (r: Option<CastlingRights>)
    ensures
        r == rights_parse(s@),
{
    let mut text = String::new();
    let mut i: usize = 0;
    while i < s.len()
        invariant
            i <= s@.len(),
            text@ == s@.take(i as int),
        decreases s@.len() - i,
    {
        push_char(&mut text, s[i]);
        i = i + 1;
        assert(text@ =~= s@.take(i as int));
    }
    assert(s@.take(s@.len() as int) =~= s@);
    match CastlingRights::from_string(text.as_str()) {
        Ok(r) => Some(r),
        Err(_) => None,
    }
}

impl Board {
    pub fn from_fen(fen: &str) -> (r: Result<Self, String>)
        ensures
            fen_model(fen@) is Some ==> (r matches Ok(b) && b@ == fen_model(fen@).unwrap()),
            fen_model(fen@) is None ==> r is Err,
    {
        let text = chars_of(fen);
        let parts = split_whitespace(&text);
        if parts.len() != 6 {
            return Err(String::from_str("FEN must have 6 space-separated fields"));
        }
        let ghost ps = split_ws(fen@);
        assert(parts@[0]@ == ps[0]);
        let mut board = Board {
            squares: [[Piece::Empty; 8]; 8],
            turn: Color::White,
            castling_rights: CastlingRights::new(),
            en_passant_square: None,
            halfmove_clock: 0,
            fullmove_number: 1,
        };
        let ranks = split_on_char(&parts[0], '/');
        let ghost rs = split_on(ps[0], '/');
        if ranks.len() != 8 {
            return Err(String::from_str("Invalid piece placement"));
        }
        let mut rank_idx: usize = 0;
        while rank_idx < 8
            invariant
                rank_idx <= 8,
                ps == split_ws(fen@),
                ps.len() == 6,
                rs == split_on(ps[0], '/'),
                ranks@.len() == 8,
                rs.len() == 8,
                forall|k: int| 0 <= k < 8 ==> #[trigger] ranks@[k]@ == rs[k],
                forall|k: int| 0 <= k < rank_idx ==> #[trigger] rank_row(rs[k]) == Some(board.squares[k]@),
            decreases 8 - rank_idx,
        {
            match parse_rank(&ranks[rank_idx]) {
                Ok(row) => {
                    board.squares[rank_idx] = row;
                },
                Err(e) => {
                    proof {
                        assert(rank_row(rs[rank_idx as int]) is None);
                    }
                    return Err(e);
                },
            }
            rank_idx = rank_idx + 1;
        }
        assert(parts@[1]@ == ps[1]);
        assert(parts@[2]@ == ps[2]);
        assert(parts@[3]@ == ps[3]);
        assert(parts@[4]@ == ps[4]);
        assert(parts@[5]@ == ps[5]);
        if is_single(&parts[1], 'w') {
            board.turn = Color::White;
        } else if is_single(&parts[1], 'b') {
            board.turn = Color::Black;
        } else {
            return Err(String::from_str("Invalid turn"));
        }
        match rights_from_chars(&parts[2]) {
            Some(cr) => {
                board.castling_rights = cr;
            },
            None => {
                return Err(String::from_str("Invalid castling rights"));
            },
        }
        if is_single(&parts[3], '-') {
            board.en_passant_square = None;
        } else {
            match parse_square_chars(&parts[3]) {
                Some(sq) => {
                    board.en_passant_square = Some(sq);
                },
                None => {
                    return Err(String::from_str("Invalid en passant square"));
                },
            }
        }
        match parse_u32(&parts[4]) {
            Some(n) => {
                board.halfmove_clock = n;
            },
            None => {
                return Err(String::from_str("Invalid halfmove clock"));
            },
        }
        match parse_u32(&parts[5]) {
            Some(n) => {
                board.fullmove_number = n;
            },
            None => {
                return Err(String::from_str("Invalid fullmove number"));
            },
        }
        proof {
            let m = fen_model(fen@).unwrap();
            assert(forall|i: int| 0 <= i < 8 ==> (#[trigger] rank_row(rs[i])) is Some);
            assert(board@.grid =~~= m.grid);
            assert(board@ =~~= m);
        }
        Ok(board)
    }

    pub fn to_fen(&self) -> (s: String)
        requires
            self.en_passant_square matches Some(sq) ==> sq.1 % 256 <= 158 && sq.0 % 256 <= 56,
        ensures
            s@ == fen_text(self@),
    {
        let mut fen = String::new();
        let mut rank: usize = 0;
        while rank < 8
            invariant
                rank <= 8,
                fen@ == placement_prefix(self@.grid, rank as int),
            decreases 8 - rank,
        {
            let ghost before = fen@;
            if rank > 0 {
                push_char(&mut fen, '/');
            }
            let mut empty_count: u64 = 0;
            let mut file: usize = 0;
            let ghost row = self@.grid[rank as int];
            let ghost base = fen@;
            while file < 8
                invariant
                    rank < 8,
                    file <= 8,
                    row == self@.grid[rank as int],
                    row.len() == 8,
                    fen@ == base + row_state(row.take(file as int)).0,
                    empty_count == row_state(row.take(file as int)).1,
                    empty_count <= file,
                decreases 8 - file,
            {
                let piece = self.squares[rank][file];
                assert(row.take(file + 1).drop_last() =~= row.take(file as int));
                assert(row.take(file + 1).last() == piece);
                if piece == Piece::Empty {
                    empty_count = empty_count + 1;
                } else {
                    if empty_count > 0 {
                        push_decimal(&mut fen, empty_count);
                        assert(decimal(empty_count as nat) == seq![digit_char(empty_count as int)]);
                        empty_count = 0;
                    }
                    push_char(&mut fen, piece_to_fen_char(piece));
                }
                file = file + 1;
                assert(fen@ =~= base + row_state(row.take(file as int)).0);
            }
            if empty_count > 0 {
                push_decimal(&mut fen, empty_count);
                assert(decimal(empty_count as nat) == seq![digit_char(empty_count as int)]);
            }
            assert(row.take(8) =~= row);
            assert(fen@ =~= placement_prefix(self@.grid, rank + 1));
            rank = rank + 1;
        }
        push_char(&mut fen, ' ');
        push_char(&mut fen, match self.turn {
            Color::White => 'w',
            Color::Black => 'b',
        });
        push_char(&mut fen, ' ');
        let cr = self.castling_rights.to_string();
        fen.append(cr.as_str());
        push_char(&mut fen, ' ');
        match self.en_passant_square {
            Some(sq) => {
                let t = Self::square_to_string(sq);
                fen.append(t.as_str());
            },
            None => push_char(&mut fen, '-'),
        }
        push_char(&mut fen, ' ');
        push_decimal(&mut fen, self.halfmove_clock as u64);
        push_char(&mut fen, ' ');
        push_decimal(&mut fen, self.fullmove_number as u64);
        assert(fen@ =~= fen_text(self@));
        fen
    }
}

} // verus!
