//! The Universal Chess Interface: move and score notation, and the position
//! commands applied to a board.

use vstd::prelude::*;
use vstd::string::{StringSliceAdditionalSpecFns, StringExecFns};
use crate::board::board::{Board, BoardModel, Color, on_board, start_model};
use crate::board::chess_move::{ChessMove, MoveType};
use crate::board::pieces::{Piece, piece_letter, piece_to_fen_char};
use crate::evaluation::{Score, div_toward_zero};
use crate::text::{push_char, push_decimal, decimal};

verus! {

pub struct EngineInfo {
    pub name: String,
    pub author: String,
}

/// The ASCII lower-case form of a character.
pub open spec fn ascii_lower(c: char) -> char {
    if 'A' <= c && c <= 'Z' { ((c as u32) + 32) as char } else { c }
}

/// The coordinate text the square printer gives for a square.
pub open spec fn square_chars(sq: (usize, usize)) -> Seq<char> {
    seq![((97 + sq.1 % 256) as u8) as char, ((56 - sq.0 % 256) as u8) as char]
}

/// The square printer can print the square without its byte arithmetic overflowing.
pub open spec fn printable(sq: (usize, usize)) -> bool {
    sq.1 % 256 <= 158 && sq.0 % 256 <= 56
}

/// The promotion letter of a move in UCI notation, lower case.
pub open spec fn promo_char(mv: ChessMove) -> Option<char> {
    match mv.move_type {
        MoveType::Promotion(p) => Some(ascii_lower(piece_letter(p))),
        _ => None,
    }
}

/// The UCI text of a move: origin, destination and promotion letter.
pub open spec fn move_text(mv: ChessMove) -> Seq<char> {
    square_chars(mv.from) + square_chars(mv.to) + match promo_char(mv) {
        Some(c) => seq![c],
        None => Seq::empty(),
    }
}

/// The decimal text of an integer, with a minus sign when negative.
pub open spec fn int_text(n: int) -> Seq<char> {
    if n < 0 { seq!['-'] + decimal((-n) as nat) } else { decimal(n as nat) }
}

/// The UCI score of a position from the side to move's point of view: `mate N`
/// with the number of moves to mate for scores within 10000 of a mate, else `cp N`.
pub open spec fn score_text(score: int, side_is_white: bool) -> Seq<char> {
    let pov = if side_is_white { score } else { -score };
    let a = if pov < 0 { -pov } else { pov };
    if a >= 90000 {
        seq!['m', 'a', 't', 'e', ' '] + int_text(div_toward_zero(100000 - a + 1, 2))
    } else {
        seq!['c', 'p', ' '] + int_text(pov)
    }
}

pub open spec fn file_byte(b: u8) -> bool {
    97 <= b && b <= 104
}

pub open spec fn rank_byte(b: u8) -> bool {
    49 <= b && b <= 56
}

/// A token of four or five bytes that starts with two squares in coordinate notation.
pub open spec fn move_token(bytes: Seq<u8>) -> bool {
    &&& (bytes.len() == 4 || bytes.len() == 5)
    &&& file_byte(bytes[0]) && rank_byte(bytes[1]) && file_byte(bytes[2]) && rank_byte(bytes[3])
}

/// The square named by a file byte and a rank byte.
pub open spec fn byte_square(f: u8, r: u8) -> Option<(usize, usize)> {
    if file_byte(f) && rank_byte(r) { Some(((56 - r) as usize, (f - 97) as usize)) } else { None }
}

/// The promotion letter a fifth byte asks for: upper-case letters are lowered,
/// other bytes are taken as they are.
pub open spec fn promo_of_byte(b: u8) -> char {
    if 65 <= b && b <= 90 { ((b + 32) as u8) as char } else { b as char }
}

/// The first legal move with the given origin, destination and promotion letter.
pub open spec fn find_move(moves: Seq<ChessMove>, from: (usize, usize), to: (usize, usize), promo: Option<char>, i: int) -> Option<ChessMove>
    decreases moves.len() - i,
{
    if i < 0 || i >= moves.len() {
        None
    } else if moves[i].from == from && moves[i].to == to && promo_char(moves[i]) == promo {
        Some(moves[i])
    } else {
        find_move(moves, from, to, promo, i + 1)
    }
}

/// The legal move a UCI move text names, if any.
pub open spec fn uci_choice(m: BoardModel, bytes: Seq<u8>) -> Option<ChessMove> {
    if bytes.len() < 4 || bytes.len() > 5 {
        None
    } else {
        match (byte_square(bytes[0], bytes[1]), byte_square(bytes[2], bytes[3])) {
            (Some(from), Some(to)) => {
                let promo = if bytes.len() == 5 { Some(promo_of_byte(bytes[4])) } else { None };
                find_move(m.legal_moves(), from, to, promo, 0)
            },
            _ => None,
        }
    }
}

/// Cutting the text after its second and fourth bytes does not split a character.
pub open spec fn cuts_cleanly(bytes: Seq<u8>) -> bool {
    (4 <= bytes.len() <= 5) ==> vstd::utf8::is_char_boundary(bytes, 2) && vstd::utf8::is_char_boundary(bytes, 4)
}

/// The position after a list of UCI moves, stopping at the first that is not legal.
pub open spec fn after_moves(m: BoardModel, tokens: Seq<Seq<u8>>) -> BoardModel
    decreases tokens.len(),
{
    if tokens.len() == 0 {
        m
    } else {
        match uci_choice(m, tokens[0]) {
            Some(mv) => after_moves(m.after_move(mv.from, mv.to, mv.move_type), tokens.drop_first()),
            None => m,
        }
    }
}

/// Every position along a list of moves has room in its move counters.
pub open spec fn moves_fit(m: BoardModel, tokens: Seq<Seq<u8>>) -> bool
    decreases tokens.len(),
{
    &&& m.counters_ok()
    &&& tokens.len() > 0 ==> cuts_cleanly(tokens[0])
    &&& tokens.len() > 0 ==> match uci_choice(m, tokens[0]) {
        Some(mv) => moves_fit(m.after_move(mv.from, mv.to, mv.move_type), tokens.drop_first()),
        None => true,
    }
}

/// The promotion letter of a move in UCI notation.
pub fn uci_promo_char(mv: &ChessMove) -> (r: Option<char>)
    requires
        mv.move_type matches MoveType::Promotion(p) ==> p != Piece::Empty,
    ensures
        r == promo_char(*mv),
{
    match mv.move_type {
        MoveType::Promotion(piece) => {
            let c = piece_to_fen_char(piece);
            Some(if 'A' <= c && c <= 'Z' { ((c as u8) + 32) as char } else { c })
        },
        _ => None,
    }
}

/// The promotion letter of a move, for any move kind.
fn promo_letter(mv: &ChessMove) -> (r: Option<char>)
    ensures
        r == promo_char(*mv),
{
    match mv.move_type {
        MoveType::Promotion(piece) => {
            let c = crate::board::pieces::piece_to_char(piece);
            Some(if 'A' <= c && c <= 'Z' { ((c as u8) + 32) as char } else { c })
        },
        _ => None,
    }
}

/// The UCI text of a move.
pub fn uci_move_string(mv: &ChessMove) -> (s: String)
    requires
        printable(mv.from),
        printable(mv.to),
        mv.move_type matches MoveType::Promotion(p) ==> p != Piece::Empty,
    ensures
        s@ == move_text(*mv),
{
    let from = Board::square_to_string(mv.from);
    let to = Board::square_to_string(mv.to);
    let mut s = String::new();
    s.append(from.as_str());
    s.append(to.as_str());
    if let Some(promo) = uci_promo_char(mv) {
        push_char(&mut s, promo);
    }
    proof {
        assert(s@ =~= move_text(*mv));
    }
    s
}

/// Whether a token is a move in coordinate notation, such as `e2e4` or `a7a8q`.
pub fn is_uci_move_token(token: &str) -> (r: bool)
    ensures
        r == move_token(token.spec_bytes()),
{
    if token.len() != 4 && token.len() != 5 {
        return false;
    }
    let b = token.as_bytes();
    (b[0] >= 97 && b[0] <= 122) && (b[0] >= 97 && b[0] <= 104) && (b[1] >= 49 && b[1] <= 56)
        && (b[2] >= 97 && b[2] <= 122) && (b[2] >= 97 && b[2] <= 104) && (b[3] >= 49 && b[3] <= 56)
}

fn push_int(s: &mut String, n: i64)
    requires
        n > i64::MIN,
    ensures
        final(s)@ == old(s)@ + int_text(n as int),
{
    if n < 0 {
        push_char(s, '-');
        push_decimal(s, (-n) as u64);
        proof {
            assert(final(s)@ =~= old(s)@ + int_text(n as int));
        }
    } else {
        push_decimal(s, n as u64);
    }
}

/// The UCI score text of a score given from white's point of view.
pub fn uci_score_string(score: Score, side_is_white: bool) -> (s: String)
    requires
        score != i32::MIN,
    ensures
        s@ == score_text(score as int, side_is_white),
{
    let from_side_pov = if side_is_white { score } else { -score };
    let a = if from_side_pov < 0 { -from_side_pov } else { from_side_pov };
    let mut s = String::new();
    if a >= 90000 {
        let plies_to_mate = 100000 - a;
        let moves_to_mate = (plies_to_mate + 1) / 2;
        push_char(&mut s, 'm');
        push_char(&mut s, 'a');
        push_char(&mut s, 't');
        push_char(&mut s, 'e');
        push_char(&mut s, ' ');
        push_int(&mut s, moves_to_mate as i64);
    } else {
        push_char(&mut s, 'c');
        push_char(&mut s, 'p');
        push_char(&mut s, ' ');
        push_int(&mut s, from_side_pov as i64);
    }
    proof {
        assert(s@ =~= score_text(score as int, side_is_white));
    }
    s
}

/// Plays the legal move a UCI move text names.
pub fn apply_uci_move(board: &mut Board, move_notation: &str) -> (r: Result<(), String>)
    requires
        old(board)@.counters_ok(),
        cuts_cleanly(move_notation.spec_bytes()),
    ensures
        match uci_choice(old(board)@, move_notation.spec_bytes()) {
            Some(mv) => r is Ok && final(board)@ == old(board)@.after_move(mv.from, mv.to, mv.move_type),
            None => r is Err && final(board)@ == old(board)@,
        },
{
    let n = move_notation.len();
    if n < 4 || n > 5 {
        return Err(String::from_str("Invalid move notation"));
    }
    let b = move_notation.as_bytes();
    let from_sq = match square_of_bytes(b[0], b[1]) {
        Some(sq) => sq,
        None => return Err(String::from_str("Invalid square")),
    };
    let to_sq = match square_of_bytes(b[2], b[3]) {
        Some(sq) => sq,
        None => return Err(String::from_str("Invalid square")),
    };
    let promotion: Option<char> = if n == 5 {
        let c = b[4];
        Some(if c >= 65 && c <= 90 { (c + 32) as char } else { c as char })
    } else {
        None
    };
    assert(b@ == move_notation.spec_bytes());
    assert(uci_choice(old(board)@, move_notation.spec_bytes())
        == find_move(old(board)@.legal_moves(), from_sq, to_sq, promotion, 0));
    let moves = board.generate_moves();
    let ghost legal = moves@;
    let mut i: usize = 0;
    while i < moves.len()
        invariant
            i <= moves@.len(),
            moves@ == legal,
            legal == old(board)@.legal_moves(),
            board@ == old(board)@,
            board@.counters_ok(),
            old(board)@.all_sane(legal, 0),
            find_move(legal, from_sq, to_sq, promotion, 0) == find_move(legal, from_sq, to_sq, promotion, i as int),
            uci_choice(old(board)@, move_notation.spec_bytes()) == find_move(legal, from_sq, to_sq, promotion, 0),
        decreases moves@.len() - i,
    {
        let mv = moves[i];
        assert(old(board)@.sane_move(legal[i as int]));
        let promo = promo_letter(&mv);
        if mv.from.0 == from_sq.0 && mv.from.1 == from_sq.1 && mv.to.0 == to_sq.0 && mv.to.1 == to_sq.1
            && promo == promotion
        {
            return board.execute_move(mv.from, mv.to, mv.move_type);
        }
        i = i + 1;
    }
    let mut e = String::from_str("Illegal move: ");
    e.append(move_notation);
    Err(e)
}

/// The square named by a file byte and a rank byte.
fn square_of_bytes(f: u8, r: u8) -> (sq: Option<(usize, usize)>)
    ensures
        sq == byte_square(f, r),
{
    if f >= 97 && f <= 104 && r >= 49 && r <= 56 {
        Some(((56 - r) as usize, (f - 97) as usize))
    } else {
        None
    }
}

/// Plays UCI moves in turn, stopping at the first that is not legal.
pub fn apply_moves(board: &mut Board, moves: &Vec<String>, start: usize)
    requires
        start <= moves@.len(),
        moves_fit(old(board)@, Seq::new((moves@.len() - start) as nat, |i: int| vstd::utf8::encode_utf8(moves@[start + i]@))),
    ensures
        final(board)@ == after_moves(old(board)@, Seq::new((moves@.len() - start) as nat, |i: int| vstd::utf8::encode_utf8(moves@[start + i]@))),
    decreases moves@.len() - start,
{
    let ghost toks = Seq::new((moves@.len() - start) as nat, |i: int| vstd::utf8::encode_utf8(moves@[start + i]@));
    if start >= moves.len() {
        return;
    }
    let r = apply_uci_move(board, moves[start].as_str());
    if r.is_err() {
        return;
    }
    let ghost rest = Seq::new((moves@.len() - (start + 1)) as nat, |i: int| vstd::utf8::encode_utf8(moves@[start + 1 + i]@));
    assert(toks.drop_first() =~= rest);
    apply_moves(board, moves, start + 1);
}

/// The legal moves of the side to move in UCI notation.
pub fn legal_move_strings(board: &Board) -> (v: Vec<String>)
    requires
        board@.counters_ok(),
    ensures
        v@.len() == board@.legal_moves().len(),
        forall|i: int| 0 <= i < v@.len() ==> #[trigger] v@[i]@ == move_text(board@.legal_moves()[i]),
{
    let moves = board.generate_moves();
    let mut out: Vec<String> = Vec::new();
    let mut i: usize = 0;
    while i < moves.len()
        invariant
            i <= moves@.len(),
            moves@ == board@.legal_moves(),
            board@.all_sane(moves@, 0),
            out@.len() == i,
            forall|j: int| 0 <= j < i ==> #[trigger] out@[j]@ == move_text(moves@[j]),
        decreases moves@.len() - i,
    {
        let mv = moves[i];
        assert(board@.sane_move(moves@[i as int]));
        let from = Board::square_to_string(mv.from);
        let to = Board::square_to_string(mv.to);
        let mut s = String::new();
        s.append(from.as_str());
        s.append(to.as_str());
        if let Some(promo) = promo_letter(&mv) {
            push_char(&mut s, promo);
        }
        assert(s@ =~= move_text(mv));
        out.push(s);
        i = i + 1;
    }
    out
}

/// The words of a list joined by single spaces.
pub open spec fn joined(words: Seq<Seq<char>>) -> Seq<char>
    decreases words.len(),
{
    if words.len() == 0 {
        Seq::empty()
    } else if words.len() == 1 {
        words[0]
    } else {
        joined(words.drop_last()) + seq![' '] + words.last()
    }
}

/// The index of the first word `moves` at or after `i`, or the number of words.
pub open spec fn moves_keyword(parts: Seq<Seq<char>>, i: int) -> int
    decreases parts.len() - i,
{
    if i >= parts.len() {
        parts.len() as int
    } else if parts[i] == seq!['m', 'o', 'v', 'e', 's'] {
        i
    } else {
        moves_keyword(parts, i + 1)
    }
}

pub open spec fn move_tokens(parts: Seq<Seq<char>>, start: int) -> Seq<Seq<u8>> {
    Seq::new((parts.len() - start) as nat, |i: int| vstd::utf8::encode_utf8(parts[start + i]))
}

/// The position a `position` command sets up: `startpos` or a FEN (the words up
/// to `moves`), then the listed moves up to the first illegal one; a command
/// that names neither, or a FEN that does not parse, leaves the board as it is.
pub open spec fn position_after(m: BoardModel, parts: Seq<Seq<char>>) -> BoardModel {
    if parts.len() < 2 {
        m
    } else if parts[1] == seq!['s', 't', 'a', 'r', 't', 'p', 'o', 's'] {
        if parts.len() > 2 && parts[2] == seq!['m', 'o', 'v', 'e', 's'] {
            after_moves(start_model(), move_tokens(parts, 3))
        } else {
            start_model()
        }
    } else if parts[1] == seq!['f', 'e', 'n'] && parts.len() >= 3 {
        let e = moves_keyword(parts, 2);
        match crate::board::fen::fen_model(joined(parts.subrange(2, e))) {
            Some(b) => if e < parts.len() && e + 1 < parts.len() {
                after_moves(b, move_tokens(parts, e + 1))
            } else {
                b
            },
            None => m,
        }
    } else {
        m
    }
}

/// The moves a `position` command lists can be played without overflowing a counter.
pub open spec fn position_fits(parts: Seq<Seq<char>>) -> bool {
    &&& (parts.len() > 2 && parts[1] == seq!['s', 't', 'a', 'r', 't', 'p', 'o', 's'] && parts[2] == seq!['m', 'o', 'v', 'e', 's'])
        ==> moves_fit(start_model(), move_tokens(parts, 3))
    &&& (parts.len() >= 3 && parts[1] == seq!['f', 'e', 'n']) ==> {
        let e = moves_keyword(parts, 2);
        match crate::board::fen::fen_model(joined(parts.subrange(2, e))) {
            Some(b) => e + 1 < parts.len() ==> moves_fit(b, move_tokens(parts, e + 1)),
            None => true,
        }
    }
}

fn word_is(w: &String, lit: &str) -> (r: bool)
    ensures
        r == (w@ == lit@),
{
    let v = crate::text::chars_of(w.as_str());
    crate::text::chars_equal(&v, lit)
}

/// Sets up the position of a UCI `position` command given as its words.
pub fn position_command(board: &mut Board, parts: &Vec<String>)
    requires
        position_fits(parts@.map_values(|w: String| w@)),
    ensures
        final(board)@ == position_after(old(board)@, parts@.map_values(|w: String| w@)),
{
    let ghost ws = parts@.map_values(|w: String| w@);
    proof {
        reveal_strlit("startpos");
        reveal_strlit("moves");
        reveal_strlit("fen");
        assert("startpos"@ =~= seq!['s', 't', 'a', 'r', 't', 'p', 'o', 's']);
        assert("moves"@ =~= seq!['m', 'o', 'v', 'e', 's']);
        assert("fen"@ =~= seq!['f', 'e', 'n']);
    }
    if parts.len() < 2 {
        return;
    }
    assert(ws[1] == parts@[1]@);
    if word_is(&parts[1], "startpos") {
        assert(ws[1] == seq!['s', 't', 'a', 'r', 't', 'p', 'o', 's']);
        *board = Board::new();
        if parts.len() > 2 {
            assert(ws[2] == parts@[2]@);
        }
        if parts.len() > 2 && word_is(&parts[2], "moves") {
            assert(ws[2] == seq!['m', 'o', 'v', 'e', 's']);
            proof {
                assert(Seq::new((parts@.len() - 3) as nat, |i: int| vstd::utf8::encode_utf8(parts@[3 + i]@))
                    =~= move_tokens(ws, 3));
            }
            apply_moves(board, parts, 3);
            assert(board@ == after_moves(start_model(), move_tokens(ws, 3)));
        } else {
            assert(!(ws.len() > 2 && ws[2] == seq!['m', 'o', 'v', 'e', 's']));
            assert(board@ == start_model());
        }
        assert(board@ == position_after(old(board)@, ws));
        return;
    }
    if word_is(&parts[1], "fen") && parts.len() >= 3 {
        assert(ws[1] == seq!['f', 'e', 'n']);
        assert(ws[1] != seq!['s', 't', 'a', 'r', 't', 'p', 'o', 's']);
        let mut fen_end = parts.len();
        let mut i: usize = 2;
        while i < parts.len()
            invariant_except_break
                2 <= i <= parts@.len(),
                fen_end == parts@.len(),
                ws == parts@.map_values(|w: String| w@),
                moves_keyword(ws, 2) == moves_keyword(ws, i as int),
            ensures
                fen_end == moves_keyword(ws, 2),
                2 <= fen_end <= parts@.len(),
            decreases parts@.len() - i,
        {
            assert(ws[i as int] == parts@[i as int]@);
            proof {
                reveal_strlit("moves");
                assert("moves"@ =~= seq!['m', 'o', 'v', 'e', 's']);
            }
            if word_is(&parts[i], "moves") {
                assert(ws[i as int] == seq!['m', 'o', 'v', 'e', 's']);
                fen_end = i;
                break;
            }
            assert(ws[i as int] != seq!['m', 'o', 'v', 'e', 's']);
            assert(moves_keyword(ws, i as int) == moves_keyword(ws, i + 1));
            i = i + 1;
        }
        assert(fen_end == moves_keyword(ws, 2));
        let mut fen = String::new();
        let mut k: usize = 2;
        while k < fen_end
            invariant
                2 <= k <= fen_end <= parts@.len(),
                ws == parts@.map_values(|w: String| w@),
                fen@ == joined(ws.subrange(2, k as int)),
            decreases fen_end - k,
        {
            if k > 2 {
                push_char(&mut fen, ' ');
            }
            fen.append(parts[k].as_str());
            proof {
                assert(ws[k as int] == parts@[k as int]@);
                assert(ws.subrange(2, k + 1).drop_last() =~= ws.subrange(2, k as int));
                assert(fen@ =~= joined(ws.subrange(2, k + 1)));
            }
            k = k + 1;
        }
        match Board::from_fen(fen.as_str()) {
            Ok(b) => {
                *board = b;
                if fen_end < parts.len() && fen_end + 1 < parts.len() {
                    proof {
                        assert(Seq::new((parts@.len() - (fen_end + 1)) as nat, |i: int| vstd::utf8::encode_utf8(parts@[fen_end + 1 + i]@))
                            =~= move_tokens(ws, fen_end + 1));
                    }
                    apply_moves(board, parts, fen_end + 1);
                }
            },
            Err(_) => {},
        }
    }
}

/// The settings of a UCI `go` command as they are read, before the clock budget.
pub ghost struct GoScan {
    pub depth: Option<u32>,
    pub nodes: Option<u64>,
    pub movetime: Option<u128>,
    pub wtime: Option<u128>,
    pub btime: Option<u128>,
    pub winc: Option<u128>,
    pub binc: Option<u128>,
    pub infinite: bool,
    pub ponder: bool,
}

/// A word read as a number of the given range, as `str::parse` reads it.
pub open spec fn parsed(w: Seq<char>, max: int) -> Option<int> {
    crate::text::parse_bounded_spec(w, max)
}

/// A search depth: the number read, capped at 64.
pub open spec fn depth_word(w: Seq<char>) -> Option<u32> {
    match parsed(w, u32::MAX as int) {
        Some(d) => Some((if d < 64 { d } else { 64 }) as u32),
        None => None,
    }
}

pub open spec fn u64_word(w: Seq<char>) -> Option<u64> {
    match parsed(w, u64::MAX as int) {
        Some(v) => Some(v as u64),
        None => None,
    }
}

pub open spec fn u128_word(w: Seq<char>) -> Option<u128> {
    match parsed(w, u128::MAX as int) {
        Some(v) => Some(v as u128),
        None => None,
    }
}

/// The index of the first word from `j` on that is not a move.
pub open spec fn skip_move_words(parts: Seq<Seq<char>>, j: int) -> int
    decreases parts.len() - j,
{
    if j >= 0 && j < parts.len() && move_token(vstd::utf8::encode_utf8(parts[j])) {
        skip_move_words(parts, j + 1)
    } else {
        j
    }
}

/// Passing over move words never moves backwards.
pub proof fn lemma_skip_move_words(parts: Seq<Seq<char>>, j: int)
    ensures
        skip_move_words(parts, j) >= j,
        j <= parts.len() ==> skip_move_words(parts, j) <= parts.len(),
    decreases parts.len() - j,
{
    if j >= 0 && j < parts.len() && move_token(vstd::utf8::encode_utf8(parts[j])) {
        lemma_skip_move_words(parts, j + 1);
    }
}

/// Reads the words of a `go` command from index `i` on: each setting takes the
/// word after it (a word that does not parse clears the setting), `infinite`
/// and `ponder` are flags, the moves after `searchmoves` are passed over, and
/// other words are ignored.
pub open spec fn go_scan(parts: Seq<Seq<char>>, i: int, g: GoScan) -> GoScan
    decreases parts.len() - i,
{
    if i < 0 || i >= parts.len() {
        g
    } else {
        let w = parts[i];
        let next = i + 1 < parts.len();
        if w == seq!['d', 'e', 'p', 't', 'h'] && next {
            go_scan(parts, i + 2, GoScan { depth: depth_word(parts[i + 1]), ..g })
        } else if w == seq!['n', 'o', 'd', 'e', 's'] && next {
            go_scan(parts, i + 2, GoScan { nodes: u64_word(parts[i + 1]), ..g })
        } else if w == seq!['m', 'o', 'v', 'e', 't', 'i', 'm', 'e'] && next {
            go_scan(parts, i + 2, GoScan { movetime: u128_word(parts[i + 1]), ..g })
        } else if w == seq!['w', 't', 'i', 'm', 'e'] && next {
            go_scan(parts, i + 2, GoScan { wtime: u128_word(parts[i + 1]), ..g })
        } else if w == seq!['b', 't', 'i', 'm', 'e'] && next {
            go_scan(parts, i + 2, GoScan { btime: u128_word(parts[i + 1]), ..g })
        } else if w == seq!['w', 'i', 'n', 'c'] && next {
            go_scan(parts, i + 2, GoScan { winc: u128_word(parts[i + 1]), ..g })
        } else if w == seq!['b', 'i', 'n', 'c'] && next {
            go_scan(parts, i + 2, GoScan { binc: u128_word(parts[i + 1]), ..g })
        } else if w == seq!['i', 'n', 'f', 'i', 'n', 'i', 't', 'e'] {
            go_scan(parts, i + 1, GoScan { infinite: true, ..g })
        } else if w == seq!['p', 'o', 'n', 'd', 'e', 'r'] {
            go_scan(parts, i + 1, GoScan { ponder: true, ..g })
        } else if w == seq!['s', 'e', 'a', 'r', 'c', 'h', 'm', 'o', 'v', 'e', 's'] {
            proof {
                lemma_skip_move_words(parts, i + 1);
            }
            go_scan(parts, skip_move_words(parts, i + 1), g)
        } else {
            go_scan(parts, i + 1, g)
        }
    }
}

/// The settings of a `go` command read from its second word on.
pub open spec fn go_settings(parts: Seq<Seq<char>>) -> GoScan {
    go_scan(parts, 1, GoScan {
        depth: None,
        nodes: None,
        movetime: None,
        wtime: None,
        btime: None,
        winc: None,
        binc: None,
        infinite: false,
        ponder: false,
    })
}

/// The time to spend on a move from the remaining time and the increment: a
/// twentieth of the remaining time plus three quarters of the increment, at
/// most nine tenths of the remaining time, and at least 50 ms.
pub open spec fn clock_budget(remaining: int, inc: int) -> int {
    let hard = remaining / 20 + inc * 3 / 4;
    let cap = remaining * 9 / 10;
    let t = if hard <= cap { hard } else { cap };
    if t >= 50 { t } else { 50 }
}

/// The clock of the side to move and its increment (zero when none is given).
pub open spec fn side_clock(g: GoScan, turn: Color) -> (Option<u128>, int) {
    if turn == Color::White {
        (g.wtime, match g.winc { Some(v) => v as int, None => 0 })
    } else {
        (g.btime, match g.binc { Some(v) => v as int, None => 0 })
    }
}

/// The clock budget of a `go` command: only without a fixed move time, and
/// only when the side to move has a clock.
pub open spec fn go_clock(g: GoScan, turn: Color) -> Option<int> {
    if g.movetime is None {
        match side_clock(g, turn).0 {
            Some(r) => Some(clock_budget(r as int, side_clock(g, turn).1)),
            None => None,
        }
    } else {
        None
    }
}

/// The budget of a `go` command can be computed without overflow.
pub open spec fn go_fits(parts: Seq<Seq<char>>, turn: Color) -> bool {
    let g = go_settings(parts);
    g.movetime is None ==> match side_clock(g, turn).0 {
        Some(r) => r * 9 <= u128::MAX && side_clock(g, turn).1 * 3 <= u128::MAX,
        None => true,
    }
}

/// The settings of a `go` command.
pub struct GoParams {
    pub depth: Option<u32>,
    pub nodes: Option<u64>,
    pub movetime: Option<u128>,
    pub clock_ms: Option<u128>,
    pub infinite: bool,
    pub ponder: bool,
}

fn parse_word(w: &String, max: u128) -> (r: Option<u128>)
    ensures
        r matches Some(v) ==> parsed(w@, max as int) == Some(v as int),
        r is None ==> parsed(w@, max as int) is None,
{
    let v = crate::text::chars_of(w.as_str());
    crate::text::parse_bounded(&v, max)
}

/// Reads a UCI `go` command given as its words, with the side to move for the
/// clock: the depth (capped at 64), node and time limits, the flags, and the
/// time budget from the side's clock when no move time is fixed.
pub fn parse_go(parts: &Vec<String>, turn: Color) -> (p: GoParams)
    requires
        go_fits(parts@.map_values(|w: String| w@), turn),
    ensures
        ({
            let g = go_settings(parts@.map_values(|w: String| w@));
            &&& p.depth == g.depth
            &&& p.nodes == g.nodes
            &&& p.movetime == g.movetime
            &&& p.infinite == g.infinite
            &&& p.ponder == g.ponder
            &&& match go_clock(g, turn) {
                Some(t) => p.clock_ms == Some(t as u128),
                None => p.clock_ms is None,
            }
        }),
{
    let ghost ws = parts@.map_values(|w: String| w@);
    let mut depth: Option<u32> = None;
    let mut nodes: Option<u64> = None;
    let mut movetime: Option<u128> = None;
    let mut wtime: Option<u128> = None;
    let mut btime: Option<u128> = None;
    let mut winc: Option<u128> = None;
    let mut binc: Option<u128> = None;
    let mut infinite = false;
    let mut ponder = false;
    let mut i: usize = 1;
    while i < parts.len()
        invariant
            ws == parts@.map_values(|w: String| w@),
            i >= 1,
            i <= parts@.len() || i == 1,
            go_settings(ws) == go_scan(ws, i as int, GoScan { depth, nodes, movetime, wtime, btime, winc, binc, infinite, ponder }),
        decreases parts.len() - i,
    {
        proof {
            reveal_strlit("depth");
            reveal_strlit("nodes");
            reveal_strlit("movetime");
            reveal_strlit("wtime");
            reveal_strlit("btime");
            reveal_strlit("winc");
            reveal_strlit("binc");
            reveal_strlit("infinite");
            reveal_strlit("ponder");
            reveal_strlit("searchmoves");
            assert("depth"@ =~= seq!['d', 'e', 'p', 't', 'h']);
            assert("nodes"@ =~= seq!['n', 'o', 'd', 'e', 's']);
            assert("movetime"@ =~= seq!['m', 'o', 'v', 'e', 't', 'i', 'm', 'e']);
            assert("wtime"@ =~= seq!['w', 't', 'i', 'm', 'e']);
            assert("btime"@ =~= seq!['b', 't', 'i', 'm', 'e']);
            assert("winc"@ =~= seq!['w', 'i', 'n', 'c']);
            assert("binc"@ =~= seq!['b', 'i', 'n', 'c']);
            assert("infinite"@ =~= seq!['i', 'n', 'f', 'i', 'n', 'i', 't', 'e']);
            assert("ponder"@ =~= seq!['p', 'o', 'n', 'd', 'e', 'r']);
            assert("searchmoves"@ =~= seq!['s', 'e', 'a', 'r', 'c', 'h', 'm', 'o', 'v', 'e', 's']);
        }
        let ghost g = GoScan { depth, nodes, movetime, wtime, btime, winc, binc, infinite, ponder };
        assert(ws[i as int] == parts@[i as int]@);
        let next = i + 1 < parts.len();
        if next {
            assert(ws[i + 1] == parts@[i + 1]@);
        }
        if word_is(&parts[i], "depth") && next {
            assert(ws[i as int] == seq!['d', 'e', 'p', 't', 'h']);
            depth = match parse_word(&parts[i + 1], 4294967295u128) {
                Some(d) => Some(if d < 64 { d as u32 } else { 64 }),
                None => None,
            };
            i = i + 2;
        } else if word_is(&parts[i], "nodes") && next {
            assert(ws[i as int] == seq!['n', 'o', 'd', 'e', 's']);
            nodes = match parse_word(&parts[i + 1], 18446744073709551615u128) {
                Some(v) => Some(v as u64),
                None => None,
            };
            i = i + 2;
        } else if word_is(&parts[i], "movetime") && next {
            assert(ws[i as int] == seq!['m', 'o', 'v', 'e', 't', 'i', 'm', 'e']);
            movetime = parse_word(&parts[i + 1], u128::MAX);
            i = i + 2;
        } else if word_is(&parts[i], "wtime") && next {
            assert(ws[i as int] == seq!['w', 't', 'i', 'm', 'e']);
            wtime = parse_word(&parts[i + 1], u128::MAX);
            i = i + 2;
        } else if word_is(&parts[i], "btime") && next {
            assert(ws[i as int] == seq!['b', 't', 'i', 'm', 'e']);
            btime = parse_word(&parts[i + 1], u128::MAX);
            i = i + 2;
        } else if word_is(&parts[i], "winc") && next {
            assert(ws[i as int] == seq!['w', 'i', 'n', 'c']);
            winc = parse_word(&parts[i + 1], u128::MAX);
            i = i + 2;
        } else if word_is(&parts[i], "binc") && next {
            assert(ws[i as int] == seq!['b', 'i', 'n', 'c']);
            binc = parse_word(&parts[i + 1], u128::MAX);
            i = i + 2;
        } else if word_is(&parts[i], "infinite") {
            assert(ws[i as int] == seq!['i', 'n', 'f', 'i', 'n', 'i', 't', 'e']);
            infinite = true;
            i = i + 1;
        } else if word_is(&parts[i], "ponder") {
            assert(ws[i as int] == seq!['p', 'o', 'n', 'd', 'e', 'r']);
            ponder = true;
            i = i + 1;
        } else if word_is(&parts[i], "searchmoves") {
            assert(ws[i as int] == seq!['s', 'e', 'a', 'r', 'c', 'h', 'm', 'o', 'v', 'e', 's']);
            i = i + 1;
            let ghost j0 = i as int;
            while i < parts.len() && is_uci_move_token(parts[i].as_str())
                invariant
                    ws == parts@.map_values(|w: String| w@),
                    i >= j0 >= 1,
                    j0 <= parts@.len(),
                    i <= parts@.len(),
                    skip_move_words(ws, i as int) == skip_move_words(ws, j0),
                decreases parts.len() - i,
            {
                assert(ws[i as int] == parts@[i as int]@);
                i = i + 1;
            }
            if i < parts.len() {
                assert(ws[i as int] == parts@[i as int]@);
            }
            assert(skip_move_words(ws, i as int) == i);
        } else {
            i = i + 1;
        }
    }
    let ghost g = GoScan { depth, nodes, movetime, wtime, btime, winc, binc, infinite, ponder };
    assert(go_settings(ws) == g);
    let mut clock_ms: Option<u128> = None;
    if movetime.is_none() {
        let (remaining, inc) = match turn {
            Color::White => (wtime, winc),
            Color::Black => (btime, binc),
        };
        clock_ms = match remaining {
            Some(r) => {
                let inc_ms = match inc {
                    Some(v) => v,
                    None => 0,
                };
                let hard = r / 20 + inc_ms * 3 / 4;
                let cap = r * 9 / 10;
                let t = if hard <= cap { hard } else { cap };
                Some(if t >= 50 { t } else { 50 })
            },
            None => None,
        };
    }
    GoParams { depth, nodes, movetime, clock_ms, infinite, ponder }
}

} // verus!
