use vstd::prelude::*;
use crate::board::board::{Board, BoardModel, Color, square_text, lemma_plan_executable, lemma_square_text_roundtrip, on_board, start_model};
use crate::board::fen::fen_text;
use crate::board::chess_move::{ChessMove, MoveType};
use crate::board::pieces::Piece;
use crate::text::{chars_of, chars_equal, trim, trim_ws, split_ws, split_whitespace, push_char};

verus! {

/// A letter or digit of ASCII.
pub open spec fn ascii_alnum(c: char) -> bool {
    ('a' <= c && c <= 'z') || ('A' <= c && c <= 'Z') || ('0' <= c && c <= '9')
}

/// A character the move reader strips from the ends of a token before looking for castling.
pub open spec fn castle_noise(c: char) -> bool {
    !ascii_alnum(c) && c != 'O' && c != '-'
}

pub open spec fn strip_front_noise(s: Seq<char>) -> Seq<char>
    decreases s.len(),
{
    if s.len() > 0 && castle_noise(s[0]) { strip_front_noise(s.drop_first()) } else { s }
}

pub open spec fn strip_back_noise(s: Seq<char>) -> Seq<char>
    decreases s.len(),
{
    if s.len() > 0 && castle_noise(s.last()) { strip_back_noise(s.drop_last()) } else { s }
}

/// An annotation mark after a move: check, mate, or a quality mark.
pub open spec fn annotation(c: char) -> bool {
    c == '+' || c == '#' || c == '!' || c == '?'
}

pub open spec fn strip_annotations(s: Seq<char>) -> Seq<char>
    decreases s.len(),
{
    if s.len() > 0 && annotation(s.last()) { strip_annotations(s.drop_last()) } else { s }
}

/// The position of the first occurrence of `c` from index `i` on, or the length.
pub open spec fn find_char(s: Seq<char>, c: char, i: int) -> int
    decreases s.len() - i,
{
    if i >= s.len() { s.len() as int } else if s[i] == c { i } else { find_char(s, c, i + 1) }
}

/// The characters of the text that are not `x`.
pub open spec fn without_x(s: Seq<char>) -> Seq<char>
    decreases s.len(),
{
    if s.len() == 0 {
        s
    } else {
        let prev = without_x(s.drop_last());
        if s.last() == 'x' { prev } else { prev.push(s.last()) }
    }
}

/// The file letters of a text, in order.
pub open spec fn files_in(s: Seq<char>) -> Seq<char>
    decreases s.len(),
{
    if s.len() == 0 {
        s
    } else {
        let prev = files_in(s.drop_last());
        if 'a' <= s.last() && s.last() <= 'h' { prev.push(s.last()) } else { prev }
    }
}

/// The rank digits of a text, in order.
pub open spec fn ranks_in(s: Seq<char>) -> Seq<char>
    decreases s.len(),
{
    if s.len() == 0 {
        s
    } else {
        let prev = ranks_in(s.drop_last());
        if '1' <= s.last() && s.last() <= '8' { prev.push(s.last()) } else { prev }
    }
}

pub open spec fn piece_letter_char(c: char) -> bool {
    c == 'P' || c == 'N' || c == 'B' || c == 'R' || c == 'Q' || c == 'K'
}

/// The SAN letter of the piece on a square; `?` for pawns and the empty square.
pub open spec fn san_letter(p: Piece) -> char {
    match p {
        Piece::WhiteKnight | Piece::BlackKnight => 'N',
        Piece::WhiteBishop | Piece::BlackBishop => 'B',
        Piece::WhiteRook | Piece::BlackRook => 'R',
        Piece::WhiteQueen | Piece::BlackQueen => 'Q',
        Piece::WhiteKing | Piece::BlackKing => 'K',
        _ => '?',
    }
}

/// The parts of a SAN move token that the reader matches legal moves against.
pub struct SanParts {
    pub has_promotion: bool,
    pub promotion_letter: Option<char>,
    pub had_capture: bool,
    pub piece: Option<char>,
    pub dest: Seq<char>,
    pub disambiguation: Seq<char>,
}

/// The token after trimming and dropping annotation marks.
pub open spec fn san_token(move_str: Seq<char>) -> Seq<char> {
    strip_annotations(trim_ws(move_str))
}

/// The token before any `=`.
pub open spec fn san_base(move_str: Seq<char>) -> Seq<char> {
    let token = san_token(move_str);
    token.take(find_char(token, '=', 0))
}

/// The token's parts, when its base is not empty and has at least two characters besides `x`.
pub open spec fn san_parts(move_str: Seq<char>) -> Option<SanParts> {
    let token = san_token(move_str);
    let base = san_base(move_str);
    let clean = without_x(base);
    if base.len() == 0 || clean.len() < 2 {
        None
    } else {
        let piece = if piece_letter_char(clean[0]) { Some(clean[0]) } else { None };
        let rest = if piece is Some { clean.drop_first() } else { clean };
        let after = trim_ws(token.subrange(find_char(token, '=', 0) + 1, token.len() as int));
        Some(SanParts {
            has_promotion: find_char(token, '=', 0) < token.len(),
            promotion_letter: if find_char(token, '=', 0) < token.len() && after.len() > 0 { Some(after[0]) } else { None },
            had_capture: find_char(base, 'x', 0) < base.len(),
            piece,
            dest: rest.subrange(rest.len() - 2, rest.len() as int),
            disambiguation: rest.take(rest.len() - 2),
        })
    }
}

/// The token's base is readable: a piece letter is followed by at least two characters.
pub open spec fn san_shape_ok(move_str: Seq<char>) -> bool {
    let clean = without_x(san_base(move_str));
    clean.len() >= 2 && piece_letter_char(clean[0]) ==> clean.len() >= 3
}

/// Whether a legal move fits the token's parts.
pub open spec fn fits(m: BoardModel, mv: ChessMove, parts: SanParts) -> bool {
    let from_s = square_text(mv.from);
    let sq_piece = m.at(mv.from.0 as int, mv.from.1 as int);
    let files = files_in(parts.disambiguation);
    let ranks = ranks_in(parts.disambiguation);
    &&& square_text(mv.to) == parts.dest
    &&& (mv.move_type is Promotion) == parts.has_promotion
    &&& match (mv.move_type, parts.promotion_letter) {
        (MoveType::Promotion(p), Some(l)) => san_letter(p) == l,
        _ => true,
    }
    &&& match parts.piece {
        None => sq_piece == Piece::WhitePawn || sq_piece == Piece::BlackPawn,
        Some(l) => san_letter(sq_piece) == l,
    }
    &&& (files.len() > 0 ==> files.contains(from_s[0]))
    &&& (ranks.len() > 0 ==> ranks.contains(from_s[1]))
    &&& (parts.had_capture ==> m.at(mv.to.0 as int, mv.to.1 as int) != Piece::Empty || mv.move_type is EnPassant)
}

/// The legal moves, in generation order, that fit the token's parts.
pub open spec fn candidates(m: BoardModel, parts: SanParts, n: int) -> Seq<ChessMove>
    decreases n,
{
    if n <= 0 {
        Seq::empty()
    } else {
        let prev = candidates(m, parts, n - 1);
        let mv = m.legal_moves()[n - 1];
        if fits(m, mv, parts) { prev.push(mv) } else { prev }
    }
}

/// The first of a list of moves, played with its own kind.
pub open spec fn first_move(moves: Seq<ChessMove>) -> Option<((usize, usize), (usize, usize), MoveType)> {
    if moves.len() > 0 { Some((moves[0].from, moves[0].to, moves[0].move_type)) } else { None }
}

/// The first of two coordinate pairs that the coordinate interface accepts.
pub open spec fn first_of_two(m: BoardModel, a: (Seq<char>, Seq<char>), b: (Seq<char>, Seq<char>)) -> Option<((usize, usize), (usize, usize), MoveType)> {
    match m.move_plan(a.0, a.1) {
        Some(plan) => Some(plan),
        None => m.move_plan(b.0, b.1),
    }
}

pub open spec fn castle_word(s: Seq<char>, long: bool) -> bool {
    if long {
        s == seq!['O', '-', 'O', '-', 'O'] || s == seq!['0', '-', '0', '-', '0']
    } else {
        s == seq!['O', '-', 'O'] || s == seq!['0', '-', '0']
    }
}

/// The move a SAN token plays on a position: castling by the king's coordinates
/// (to its destination, or onto its rook), otherwise the first legal move that
/// fits the token (with the promotion piece it names), played with its own kind.
pub open spec fn pgn_plan(m: BoardModel, move_str: Seq<char>) -> Option<((usize, usize), (usize, usize), MoveType)> {
    let norm = strip_back_noise(strip_front_noise(trim_ws(move_str)));
    let back: char = if m.turn == Color::White { '1' } else { '8' };
    if castle_word(norm, false) {
        first_of_two(m, (seq!['e', back], seq!['g', back]), (seq!['e', back], seq!['h', back]))
    } else if castle_word(norm, true) {
        first_of_two(m, (seq!['e', back], seq!['c', back]), (seq!['e', back], seq!['a', back]))
    } else {
        match san_parts(move_str) {
            Some(parts) => first_move(candidates(m, parts, m.legal_moves().len() as int)),
            None => None,
        }
    }
}

/// The en passant square, if any, lies on the board.
pub open spec fn ep_on_board(m: BoardModel) -> bool {
    m.en_passant matches Some(sq) ==> sq.0 < 8 && sq.1 < 8
}

/// The text of a numbered game result in a tag line: between the first two quotes.
pub open spec fn quoted(line: Seq<char>) -> Option<Seq<char>> {
    let start = find_char(line, '"', 0);
    if start >= line.len() {
        None
    } else {
        let end = find_char(line, '"', start + 1);
        if end >= line.len() { None } else { Some(line.subrange(start + 1, end)) }
    }
}

/// A token the game reader skips: empty, a move number, a comment or NAG mark,
/// a tag, the unfinished-game mark, or a result.
pub open spec fn skip_token(tok: Seq<char>) -> bool {
    ||| tok.len() == 0
    ||| find_char(tok, '.', 0) < tok.len()
    ||| tok[0] == '{' || tok[0] == '}' || tok[0] == '$' || tok[0] == '['
    ||| tok == seq!['*']
    ||| ((find_char(tok, '-', 0) < tok.len() || find_char(tok, '/', 0) < tok.len()) && '0' <= tok[0] && tok[0] <= '9')
}

/// The position a game of `n` positions contributes, by the rotating phase:
/// after the tenth ply, after the twentieth, twelve before the end, or the last.
pub open spec fn phase_index(n: int, accepted: int) -> int {
    let phase = accepted % 4;
    if phase == 0 { 9 } else if phase == 1 { 19 } else if phase == 2 { n - 12 } else { n - 1 }
}

/// The cap is already reached before a long game is sampled.
pub open spec fn cap_reached(n: int, output_len: int, max_positions: Option<usize>) -> bool {
    n >= 45 && match max_positions {
        Some(max) => output_len >= max,
        None => false,
    }
}

pub struct PGNLoader;

impl PGNLoader {
    /// The sampling step at the end of a game of `n` positions, with `output_len`
    /// positions already collected: which position to keep (games of at least 45
    /// positions give one, by phase), and whether the cap has been reached.
    pub fn flush_game(n: usize, output_len: usize, max_positions: Option<usize>, accepted_games: &mut usize) -> (r: (Option<usize>, bool))
        requires
            *old(accepted_games) < usize::MAX,
            output_len < usize::MAX,
        ensures
            cap_reached(n as int, output_len as int, max_positions)
                ==> r == (None::<usize>, true) && *final(accepted_games) == *old(accepted_games),
            !cap_reached(n as int, output_len as int, max_positions) ==> {
                let pick = if n >= 45 { Some(phase_index(n as int, *old(accepted_games) as int) as usize) } else { None::<usize> };
                let kept = match pick { Some(i) => i < n, None => false };
                let len = if kept { output_len + 1 } else { output_len as int };
                &&& r.0 == (if kept { pick } else { None::<usize> })
                &&& *final(accepted_games) == if kept { *old(accepted_games) + 1 } else { *old(accepted_games) as int }
                &&& r.1 == match max_positions { Some(max) => len >= max, None => false }
            },
    {
        let mut len = output_len;
        let mut picked: Option<usize> = None;
        if n >= 45 {
            if let Some(max) = max_positions {
                if output_len >= max {
                    return (None, true);
                }
            }
            let phase = *accepted_games % 4;
            let idx = match phase {
                0 => 9,
                1 => 19,
                2 => n - 12,
                _ => n - 1,
            };
            if idx < n {
                *accepted_games = *accepted_games + 1;
                picked = Some(idx);
                len = len + 1;
            }
        }
        let cap = match max_positions {
            Some(max) => len >= max,
            None => false,
        };
        (picked, cap)
    }

    /// The text between the first two double quotes of a tag line.
    pub fn extract_result(line: &str) -> (r: Option<String>)
        ensures
            match quoted(line@) {
                Some(t) => r matches Some(s) && s@ == t,
                None => r is None,
            },
    {
        let chars = chars_of(line);
        let n = chars.len();
        let mut start: usize = 0;
        while start < n && chars[start] != '"'
            invariant
                start <= n,
                n == line@.len(),
                chars@ == line@,
                find_char(line@, '"', 0) == find_char(line@, '"', start as int),
            decreases n - start,
        {
            start = start + 1;
        }
        if start >= n {
            return None;
        }
        let mut end: usize = start + 1;
        while end < n && chars[end] != '"'
            invariant
                start < end <= n,
                n == line@.len(),
                chars@ == line@,
                find_char(line@, '"', start + 1) == find_char(line@, '"', end as int),
            decreases n - end,
        {
            end = end + 1;
        }
        if end >= n {
            return None;
        }
        let mut s = String::new();
        let mut k: usize = start + 1;
        while k < end
            invariant
                start < k <= end < n,
                n == line@.len(),
                chars@ == line@,
                s@ =~= line@.subrange(start + 1, k as int),
            decreases end - k,
        {
            crate::text::push_char(&mut s, chars[k]);
            k = k + 1;
        }
        Some(s)
    }

    /// Whether the game reader skips a token.
    pub fn is_skip_token(tok: &str) -> (r: bool)
        ensures
            r == skip_token(tok@),
    {
        let chars = chars_of(tok);
        if chars.len() == 0 {
            return true;
        }
        let first = chars[0];
        if contains_char(&chars, '.') {
            return true;
        }
        if first == '{' || first == '}' || first == '$' || first == '[' {
            return true;
        }
        proof {
            reveal_strlit("*");
            assert("*"@ =~= seq!['*']);
        }
        if chars_equal(&chars, "*") {
            return true;
        }
        if (contains_char(&chars, '-') || contains_char(&chars, '/')) && first >= '0' && first <= '9' {
            return true;
        }
        false
    }

    /// Whether a move token has the shape that `apply_move` reads: a token
    /// that names a piece and has at least two characters besides `x` has a
    /// third.
    pub fn san_shape_checked(move_str: &str) -> (r: bool)
        ensures
            r == san_shape_ok(move_str@),
    {
        let text = chars_of(move_str);
        let raw = trim(&text);
        let token = strip_marks(&raw);
        let eq_pos = find_in(&token, '=');
        let mut base: Vec<char> = Vec::new();
        let mut i: usize = 0;
        while i < eq_pos
            invariant
                i <= eq_pos <= token@.len(),
                base@ =~= token@.take(i as int),
            decreases eq_pos - i,
        {
            base.push(token[i]);
            i = i + 1;
        }
        let clean = drop_x(&base);
        proof {
            assert(raw@ == trim_ws(move_str@));
            assert(token@ == san_token(move_str@));
            assert(base@ == san_base(move_str@));
            assert(clean@ == without_x(san_base(move_str@)));
        }
        if clean.len() >= 2 {
            let c0 = clean[0];
            if c0 == 'P' || c0 == 'N' || c0 == 'B' || c0 == 'R' || c0 == 'Q' || c0 == 'K' {
                return clean.len() >= 3;
            }
        }
        true
    }

    /// Plays a SAN move token on the board: castling by the king's coordinates,
    /// otherwise the first legal move that fits the token's piece, destination,
    /// disambiguation, capture mark and promotion mark.
    pub fn apply_move(board: &mut Board, move_str: &str) -> (r: Result<(), String>)
        requires
            old(board)@.counters_ok(),
            san_shape_ok(move_str@),
        ensures
            match pgn_plan(old(board)@, move_str@) {
                Some(plan) => r is Ok && final(board)@ == old(board)@.after_move(plan.0, plan.1, plan.2),
                None => r is Err && final(board)@ == old(board)@,
            },
            r is Ok ==> ep_on_board(final(board)@),
    {
        let ghost m = board@;
        let text = chars_of(move_str);
        let raw = trim(&text);
        let norm = strip_noise(&raw);
        proof {
            reveal_strlit("O-O");
            reveal_strlit("0-0");
            reveal_strlit("O-O-O");
            reveal_strlit("0-0-0");
            assert("O-O"@ =~= seq!['O', '-', 'O']);
            assert("0-0"@ =~= seq!['0', '-', '0']);
            assert("O-O-O"@ =~= seq!['O', '-', 'O', '-', 'O']);
            assert("0-0-0"@ =~= seq!['0', '-', '0', '-', '0']);
        }
        let back: char = if board.turn == Color::White { '1' } else { '8' };
        if chars_equal(&norm, "O-O") || chars_equal(&norm, "0-0") {
            return Self::try_two(board, back, 'g', 'h');
        }
        if chars_equal(&norm, "O-O-O") || chars_equal(&norm, "0-0-0") {
            return Self::try_two(board, back, 'c', 'a');
        }
        let token = strip_marks(&raw);
        let eq_pos = find_in(&token, '=');
        let has_promotion = eq_pos < token.len();
        let mut base: Vec<char> = Vec::new();
        let mut i: usize = 0;
        while i < eq_pos
            invariant
                i <= eq_pos <= token@.len(),
                base@ =~= token@.take(i as int),
            decreases eq_pos - i,
        {
            base.push(token[i]);
            i = i + 1;
        }
        let mut after_eq: Vec<char> = Vec::new();
        if has_promotion {
            let mut q: usize = eq_pos + 1;
            while q < token.len()
                invariant
                    eq_pos < q <= token@.len(),
                    after_eq@ =~= token@.subrange(eq_pos + 1, q as int),
                decreases token@.len() - q,
            {
                after_eq.push(token[q]);
                q = q + 1;
            }
        }
        let after_trim = trim(&after_eq);
        let promotion_letter: Option<char> = if has_promotion && after_trim.len() > 0 { Some(after_trim[0]) } else { None };
        if base.len() == 0 {
            return Err(String::from_str("Empty move token"));
        }
        let had_capture = find_in(&base, 'x') < base.len();
        let clean = drop_x(&base);
        if clean.len() < 2 {
            return Err(String::from_str("Malformed move token"));
        }
        let c0 = clean[0];
        let piece: Option<char> = if c0 == 'P' || c0 == 'N' || c0 == 'B' || c0 == 'R' || c0 == 'Q' || c0 == 'K' {
            Some(c0)
        } else {
            None
        };
        proof {
            assert(raw@ == trim_ws(move_str@));
            assert(token@ == san_token(move_str@));
            assert(base@ == san_base(move_str@));
            assert(clean@ == without_x(san_base(move_str@)));
        }
        let skip: usize = if piece.is_some() { 1 } else { 0 };
        let rest_len = clean.len() - skip;
        let dest_file = clean[skip + rest_len - 2];
        let dest_rank = clean[skip + rest_len - 1];
        let ghost rest = if piece is Some { clean@.drop_first() } else { clean@ };
        let ghost disam = rest.take(rest.len() - 2);
        assert(rest =~= clean@.subrange(skip as int, clean@.len() as int));
        let mut disam_file: Vec<char> = Vec::new();
        let mut disam_rank: Vec<char> = Vec::new();
        let mut k: usize = 0;
        while k < rest_len - 2
            invariant
                k <= rest_len - 2,
                rest_len >= 2,
                skip + rest_len == clean@.len(),
                skip <= 1,
                rest =~= clean@.subrange(skip as int, clean@.len() as int),
                disam == rest.take(rest.len() - 2),
                disam_file@ == files_in(disam.take(k as int)),
                disam_rank@ == ranks_in(disam.take(k as int)),
            decreases rest_len - 2 - k,
        {
            let c = clean[skip + k];
            assert(disam.take(k + 1).drop_last() =~= disam.take(k as int));
            assert(disam.take(k + 1).last() == c);
            if c >= 'a' && c <= 'h' {
                disam_file.push(c);
            }
            if c >= '1' && c <= '8' {
                disam_rank.push(c);
            }
            k = k + 1;
        }
        assert(disam.take(disam.len() as int) =~= disam);
        let ghost parts = san_parts(move_str@).unwrap();
        proof {
            assert(raw@ == trim_ws(move_str@));
            assert(token@ == san_token(move_str@));
            assert(base@ == san_base(move_str@));
            assert(san_parts(move_str@) is Some);
            assert(parts.dest =~= seq![dest_file, dest_rank]);
            assert(parts.disambiguation == disam);
            assert(parts.has_promotion == has_promotion);
            assert(parts.promotion_letter == promotion_letter);
            assert(parts.had_capture == had_capture);
            assert(parts.piece == piece);
            assert(!castle_word(norm@, false) && !castle_word(norm@, true));
            assert(pgn_plan(m, move_str@) == first_move(candidates(m, parts, m.legal_moves().len() as int)));
        }
        let moves = board.generate_moves();
        let mut cands: Vec<ChessMove> = Vec::new();
        let mut j: usize = 0;
        while j < moves.len()
            invariant
                j <= moves@.len(),
                moves@ == m.legal_moves(),
                board@ == m,
                m.all_sane(moves@, 0),
                cands@ == candidates(m, parts, j as int),
                forall|q: int| 0 <= q < cands@.len() ==> m.sane_move(#[trigger] cands@[q]),
                parts.dest == seq![dest_file, dest_rank],
                parts.has_promotion == has_promotion,
                parts.promotion_letter == promotion_letter,
                parts.had_capture == had_capture,
                parts.piece == piece,
                disam_file@ == files_in(parts.disambiguation),
                disam_rank@ == ranks_in(parts.disambiguation),
            decreases moves@.len() - j,
        {
            let mv = moves[j];
            assert(m.sane_move(moves@[j as int]));
            let from_str = Board::square_to_string(mv.from);
            let to_str = Board::square_to_string(mv.to);
            let to_chars = chars_of(to_str.as_str());
            let from_chars = chars_of(from_str.as_str());
            assert(to_chars@ == square_text(mv.to));
            assert(from_chars@ == square_text(mv.from));
            let mut ok = to_chars[0] == dest_file && to_chars[1] == dest_rank;
            assert(ok == (square_text(mv.to) == parts.dest));
            let is_prom = match mv.move_type {
                MoveType::Promotion(_) => true,
                _ => false,
            };
            if is_prom != has_promotion {
                ok = false;
            }
            match (mv.move_type, promotion_letter) {
                (MoveType::Promotion(pp), Some(l)) => {
                    if letter_of(pp) != l {
                        ok = false;
                    }
                },
                _ => {},
            }
            let sq_piece = board.squares[mv.from.0][mv.from.1];
            match piece {
                None => {
                    if !(sq_piece == Piece::WhitePawn || sq_piece == Piece::BlackPawn) {
                        ok = false;
                    }
                },
                Some(l) => {
                    if letter_of(sq_piece) != l {
                        ok = false;
                    }
                },
            }
            if disam_file.len() > 0 && !contains_char(&disam_file, from_chars[0]) {
                ok = false;
            }
            if disam_rank.len() > 0 && !contains_char(&disam_rank, from_chars[1]) {
                ok = false;
            }
            let target = board.squares[mv.to.0][mv.to.1];
            let is_capture = target != Piece::Empty || match mv.move_type {
                MoveType::EnPassant => true,
                _ => false,
            };
            if had_capture && !is_capture {
                ok = false;
            }
            assert(ok == fits(m, mv, parts));
            if ok {
                cands.push(mv);
            }
            j = j + 1;
        }
        if cands.len() == 0 {
            return Err(String::from_str("Move not found"));
        }
        let mv = cands[0];
        assert(m.sane_move(cands@[0]));
        let _ = board.execute_move(mv.from, mv.to, mv.move_type);
        Ok(())
    }

    /// Tries the king's castling coordinates: to its destination file, then onto its rook's file.
    fn try_two(board: &mut Board, back: char, first: char, second: char) -> (r: Result<(), String>)
        requires
            old(board)@.counters_ok(),
            back == '1' || back == '8',
        ensures
            match first_of_two(old(board)@, (seq!['e', back], seq![first, back]), (seq!['e', back], seq![second, back])) {
                Some(plan) => r is Ok && final(board)@ == old(board)@.after_move(plan.0, plan.1, plan.2),
                None => r is Err && final(board)@ == old(board)@,
            },
            r is Ok ==> ep_on_board(final(board)@),
    {
        let ghost m = board@;
        let mut from = String::new();
        crate::text::push_char(&mut from, 'e');
        crate::text::push_char(&mut from, back);
        let mut to1 = String::new();
        crate::text::push_char(&mut to1, first);
        crate::text::push_char(&mut to1, back);
        let mut to2 = String::new();
        crate::text::push_char(&mut to2, second);
        crate::text::push_char(&mut to2, back);
        proof {
            assert(from@ =~= seq!['e', back]);
            assert(to1@ =~= seq![first, back]);
            assert(to2@ =~= seq![second, back]);
            lemma_plan_executable(m, from@, to1@);
            lemma_plan_executable(m, from@, to2@);
        }
        if board.make_move(from.as_str(), to1.as_str()).is_ok() {
            return Ok(());
        }
        if board.make_move(from.as_str(), to2.as_str()).is_ok() {
            return Ok(());
        }
        Err(String::from_str("Invalid castling"))
    }
}

/// The SAN letter of a piece.
fn letter_of(p: Piece) -> (c: char)
    ensures
        c == san_letter(p),
{
    match p {
        Piece::WhiteKnight | Piece::BlackKnight => 'N',
        Piece::WhiteBishop | Piece::BlackBishop => 'B',
        Piece::WhiteRook | Piece::BlackRook => 'R',
        Piece::WhiteQueen | Piece::BlackQueen => 'Q',
        Piece::WhiteKing | Piece::BlackKing => 'K',
        _ => '?',
    }
}

/// Whether the text holds the character.
fn contains_char(s: &Vec<char>, c: char) -> (r: bool)
    ensures
        r == s@.contains(c),
        r == (find_char(s@, c, 0) < s@.len()),
{
    let mut i: usize = 0;
    while i < s.len()
        invariant
            i <= s@.len(),
            forall|k: int| 0 <= k < i ==> s@[k] != c,
            find_char(s@, c, 0) == find_char(s@, c, i as int),
        decreases s@.len() - i,
    {
        if s[i] == c {
            assert(s@[i as int] == c);
            return true;
        }
        i = i + 1;
    }
    false
}

/// The position of the first occurrence of a character, or the length.
fn find_in(s: &Vec<char>, c: char) -> (i: usize)
    ensures
        i == find_char(s@, c, 0),
        i <= s@.len(),
{
    let mut i: usize = 0;
    while i < s.len() && s[i] != c
        invariant
            i <= s@.len(),
            find_char(s@, c, 0) == find_char(s@, c, i as int),
        decreases s@.len() - i,
    {
        i = i + 1;
    }
    i
}

/// The text without its `x` characters.
fn drop_x(s: &Vec<char>) -> (r: Vec<char>)
    ensures
        r@ == without_x(s@),
{
    let mut out: Vec<char> = Vec::new();
    let mut i: usize = 0;
    while i < s.len()
        invariant
            i <= s@.len(),
            out@ == without_x(s@.take(i as int)),
        decreases s@.len() - i,
    {
        assert(s@.take(i + 1).drop_last() =~= s@.take(i as int));
        if s[i] != 'x' {
            out.push(s[i]);
        }
        i = i + 1;
    }
    assert(s@.take(s@.len() as int) =~= s@);
    out
}

/// The text without annotation marks at its end.
fn strip_marks(s: &Vec<char>) -> (r: Vec<char>)
    ensures
        r@ == strip_annotations(s@),
{
    let mut n = s.len();
    assert(s@.take(n as int) =~= s@);
    while n > 0 && (s[n - 1] == '+' || s[n - 1] == '#' || s[n - 1] == '!' || s[n - 1] == '?')
        invariant
            n <= s@.len(),
            strip_annotations(s@) == strip_annotations(s@.take(n as int)),
        decreases n,
    {
        assert(s@.take(n as int).drop_last() =~= s@.take(n - 1));
        n = n - 1;
    }
    let mut out: Vec<char> = Vec::new();
    let mut k: usize = 0;
    while k < n
        invariant
            k <= n <= s@.len(),
            out@ =~= s@.take(k as int),
        decreases n - k,
    {
        out.push(s[k]);
        k = k + 1;
    }
    out
}

/// The text without characters other than letters, digits, `O` and `-` at either end.
fn strip_noise(s: &Vec<char>) -> (r: Vec<char>)
    ensures
        r@ == strip_back_noise(strip_front_noise(s@)),
{
    let n = s.len();
    let mut i: usize = 0;
    assert(s@.subrange(0, n as int) =~= s@);
    while i < n && castle_noise_char(s[i])
        invariant
            i <= n,
            n == s@.len(),
            strip_front_noise(s@) == strip_front_noise(s@.subrange(i as int, n as int)),
        decreases n - i,
    {
        assert(s@.subrange(i as int, n as int).drop_first() =~= s@.subrange(i + 1, n as int));
        i = i + 1;
    }
    let ghost front = s@.subrange(i as int, n as int);
    assert(strip_front_noise(front) == front);
    let mut j: usize = n;
    assert(front.take(front.len() as int) =~= front);
    while j > i && castle_noise_char(s[j - 1])
        invariant
            i <= j <= n,
            n == s@.len(),
            front == s@.subrange(i as int, n as int),
            strip_back_noise(front) == strip_back_noise(front.take(j - i)),
        decreases j - i,
    {
        assert(front.take(j - i).drop_last() =~= front.take(j - i - 1));
        j = j - 1;
    }
    let mut out: Vec<char> = Vec::new();
    let mut k: usize = i;
    while k < j
        invariant
            i <= k <= j <= n,
            n == s@.len(),
            out@ =~= s@.subrange(i as int, k as int),
        decreases j - k,
    {
        out.push(s[k]);
        k = k + 1;
    }
    proof {
        assert(front.take(j - i) =~= s@.subrange(i as int, j as int));
    }
    out
}

fn castle_noise_char(c: char) -> (r: bool)
    ensures
        r == castle_noise(c),
{
    let alnum = (c >= 'a' && c <= 'z') || (c >= 'A' && c <= 'Z') || (c >= '0' && c <= '9');
    !alnum && c != 'O' && c != '-'
}


/// The state of reading a PGN text: the positions kept, the positions of the
/// game in progress (each with the game's result code), its board, whether the
/// game broke off, the current result code, the number of games sampled, and
/// whether the cap stopped the reading.
pub ghost struct PgnScan {
    pub output: Seq<(Seq<char>, i8)>,
    pub game: Seq<(Seq<char>, i8)>,
    pub board: BoardModel,
    pub broken: bool,
    pub result: i8,
    pub accepted: int,
    pub done: bool,
}

/// A game result in half points for white: 2 for `1-0`, 0 for `0-1`, 1 otherwise.
pub open spec fn result_code(r: Seq<char>) -> i8 {
    if r == seq!['1', '-', '0'] { 2 } else if r == seq!['0', '-', '1'] { 0 } else { 1 }
}

/// Reading starts with no positions, the start position and a drawn result.
pub open spec fn pgn_start() -> PgnScan {
    PgnScan {
        output: Seq::empty(),
        game: Seq::empty(),
        board: start_model(),
        broken: false,
        result: 1,
        accepted: 0,
        done: false,
    }
}

/// The end of a game that did not break off: the sampling step of `flush_game`
/// keeps one of its positions, and the cap may stop the reading.
pub open spec fn flush_scan(s: PgnScan, max_positions: Option<usize>) -> PgnScan {
    if s.broken {
        s
    } else {
        let n = s.game.len() as int;
        if cap_reached(n, s.output.len() as int, max_positions) {
            PgnScan { done: true, ..s }
        } else {
            let pick = phase_index(n, s.accepted);
            let kept = n >= 45 && pick < n;
            let out = if kept { s.output.push(s.game[pick]) } else { s.output };
            PgnScan {
                output: out,
                accepted: if kept { s.accepted + 1 } else { s.accepted },
                done: match max_positions { Some(m) => out.len() >= m, None => false },
                ..s
            }
        }
    }
}

/// One move token: skipped tokens change nothing; a token that plays a move adds
/// the position after it; any other token breaks the game off.
pub open spec fn token_step(s: PgnScan, tok: Seq<char>) -> PgnScan {
    if s.broken || skip_token(tok) {
        s
    } else if san_shape_ok(tok) && s.board.counters_ok() {
        match pgn_plan(s.board, tok) {
            Some(plan) => {
                let b = s.board.after_move(plan.0, plan.1, plan.2);
                PgnScan { board: b, game: s.game.push((fen_text(b), s.result)), ..s }
            },
            None => PgnScan { broken: true, ..s },
        }
    } else {
        PgnScan { broken: true, ..s }
    }
}

pub open spec fn tokens_scan(s: PgnScan, toks: Seq<Seq<char>>) -> PgnScan
    decreases toks.len(),
{
    if toks.len() == 0 { s } else { token_step(tokens_scan(s, toks.drop_last()), toks.last()) }
}

/// The line starts a game's result tag.
pub open spec fn is_result_tag(t: Seq<char>) -> bool {
    t.len() >= 7 && t.take(7) == seq!['[', 'R', 'e', 's', 'u', 'l', 't']
}

/// One line of the PGN text, trimmed: a result tag ends the game in progress and
/// starts the next one with its result; other tags are skipped; a move line
/// plays its tokens unless the game broke off.
pub open spec fn line_scan(s: PgnScan, line: Seq<char>, max_positions: Option<usize>) -> PgnScan {
    let t = trim_ws(line);
    if s.done || t.len() == 0 {
        s
    } else if t[0] == '[' {
        if is_result_tag(t) {
            let f = flush_scan(s, max_positions);
            if f.done {
                f
            } else {
                PgnScan {
                    game: Seq::empty(),
                    board: start_model(),
                    broken: false,
                    result: match quoted(t) { Some(r) => result_code(r), None => s.result },
                    ..f
                }
            }
        } else {
            s
        }
    } else if s.broken {
        s
    } else {
        tokens_scan(s, split_ws(t))
    }
}

pub open spec fn lines_scan(s: PgnScan, lines: Seq<Seq<char>>, max_positions: Option<usize>) -> PgnScan
    decreases lines.len(),
{
    if lines.len() == 0 { s } else { line_scan(lines_scan(s, lines.drop_last(), max_positions), lines.last(), max_positions) }
}

/// The positions sampled from a PGN text: the lines are read in order, the last
/// game is ended too, and at most `max_positions` positions are kept.
pub open spec fn pgn_sampled(lines: Seq<Seq<char>>, max_positions: Option<usize>) -> Seq<(Seq<char>, i8)> {
    let s = lines_scan(pgn_start(), lines, max_positions);
    if s.done {
        s.output
    } else {
        let f = flush_scan(s, max_positions);
        if f.done {
            f.output
        } else {
            match max_positions {
                Some(m) => if f.output.len() > m { f.output.take(m as int) } else { f.output },
                None => f.output,
            }
        }
    }
}

/// The texts of a list of strings.
pub open spec fn texts_of(lines: Seq<String>) -> Seq<Seq<char>> {
    lines.map_values(|l: String| l@)
}

/// The text and result code of sampled positions.
pub open spec fn pairs_view(v: Seq<(String, i8)>) -> Seq<(Seq<char>, i8)> {
    v.map_values(|p: (String, i8)| (p.0@, p.1))
}

fn string_of(v: &Vec<char>) -> (s: String)
    ensures
        s@ == v@,
{
    let mut s = String::new();
    let mut i: usize = 0;
    while i < v.len()
        invariant
            i <= v@.len(),
            s@ =~= v@.take(i as int),
        decreases v@.len() - i,
    {
        push_char(&mut s, v[i]);
        i = i + 1;
    }
    assert(v@.take(v@.len() as int) =~= v@);
    s
}

fn result_code_of(r: &String) -> (c: i8)
    ensures
        c == result_code(r@),
{
    let v = chars_of(r.as_str());
    proof {
        reveal_strlit("1-0");
        reveal_strlit("0-1");
        assert("1-0"@ =~= seq!['1', '-', '0']);
        assert("0-1"@ =~= seq!['0', '-', '1']);
    }
    if chars_equal(&v, "1-0") {
        2
    } else if chars_equal(&v, "0-1") {
        0
    } else {
        1
    }
}

fn result_tag(t: &Vec<char>) -> (r: bool)
    ensures
        r == is_result_tag(t@),
{
    if t.len() < 7 {
        return false;
    }
    let r = t[0] == '[' && t[1] == 'R' && t[2] == 'e' && t[3] == 's' && t[4] == 'u' && t[5] == 'l' && t[6] == 't';
    proof {
        if r {
            assert(t@.take(7) =~= seq!['[', 'R', 'e', 's', 'u', 'l', 't']);
        } else {
            if t@.take(7) == seq!['[', 'R', 'e', 's', 'u', 'l', 't'] {
                assert(t@[0] == t@.take(7)[0] && t@[1] == t@.take(7)[1] && t@[2] == t@.take(7)[2]
                    && t@[3] == t@.take(7)[3] && t@[4] == t@.take(7)[4] && t@[5] == t@.take(7)[5] && t@[6] == t@.take(7)[6]);
            }
        }
    }
    r
}

/// The end of a game: the sampling step on the positions collected.
fn flush_into(
    output: &mut Vec<(String, i8)>,
    game: &Vec<(String, i8)>,
    broken: bool,
    max_positions: Option<usize>,
    accepted: &mut usize,
    Ghost(s): Ghost<PgnScan>,
) -> (done: bool)
    requires
        s.output == pairs_view(old(output)@),
        s.game == pairs_view(game@),
        s.broken == broken,
        !s.done,
        s.accepted == *old(accepted),
        *old(accepted) < usize::MAX,
        old(output)@.len() < usize::MAX,
    ensures
        pairs_view(final(output)@) == flush_scan(s, max_positions).output,
        *final(accepted) == flush_scan(s, max_positions).accepted,
        done == flush_scan(s, max_positions).done,
        final(output)@.len() <= old(output)@.len() + 1,
        final(output)@.len() > old(output)@.len() ==> game@.len() > 0,
{
    if broken {
        return false;
    }
    let ghost before = output@;
    let (pick, cap) = PGNLoader::flush_game(game.len(), output.len(), max_positions, accepted);
    match pick {
        Some(ix) => {
            let entry = (game[ix].0.clone(), game[ix].1);
            output.push(entry);
            assert(pairs_view(output@) =~= pairs_view(before).push(pairs_view(game@)[ix as int]));
        },
        None => {
            assert(pairs_view(output@) =~= pairs_view(before));
        },
    }
    cap
}

/// One move token of a game in progress.
fn play_token(board: &mut Board, game: &mut Vec<(String, i8)>, broken: &mut bool, result: i8, tok: &Vec<char>, Ghost(u): Ghost<PgnScan>)
    requires
        u.board == old(board)@,
        u.game == pairs_view(old(game)@),
        u.broken == *old(broken),
        u.result == result,
        ep_on_board(old(board)@),
    ensures
        token_step(u, tok@) == (PgnScan { board: final(board)@, game: pairs_view(final(game)@), broken: *final(broken), ..u }),
        ep_on_board(final(board)@),
        final(game)@.len() >= old(game)@.len(),
{
    if *broken {
        return;
    }
    let ts = string_of(tok);
    if PGNLoader::is_skip_token(ts.as_str()) {
        return;
    }
    let playable = PGNLoader::san_shape_checked(ts.as_str())
        && board.halfmove_clock < u32::MAX && board.fullmove_number < u32::MAX;
    if !playable {
        *broken = true;
        return;
    }
    match PGNLoader::apply_move(board, ts.as_str()) {
        Ok(()) => {
            let fen = board.to_fen();
            let ghost g0 = game@;
            game.push((fen, result));
            assert(pairs_view(game@) =~= pairs_view(g0).push((fen_text(board@), result)));
        },
        Err(_) => {
            *broken = true;
        },
    }
}

/// The move tokens of one line of a game in progress.
fn play_line(board: &mut Board, game: &mut Vec<(String, i8)>, broken: &mut bool, result: i8, t: &Vec<char>, Ghost(u): Ghost<PgnScan>)
    requires
        u.board == old(board)@,
        u.game == pairs_view(old(game)@),
        u.broken == *old(broken),
        u.result == result,
        ep_on_board(old(board)@),
    ensures
        tokens_scan(u, split_ws(t@)) == (PgnScan { board: final(board)@, game: pairs_view(final(game)@), broken: *final(broken), ..u }),
        ep_on_board(final(board)@),
        final(game)@.len() >= old(game)@.len(),
{
    let toks = split_whitespace(t);
    let ghost tw = split_ws(t@);
    let mut k: usize = 0;
    while k < toks.len()
        invariant
            k <= toks@.len(),
            toks@.len() == tw.len(),
            forall|q: int| 0 <= q < toks@.len() ==> #[trigger] toks@[q]@ == tw[q],
            tokens_scan(u, tw.take(k as int)) == (PgnScan { board: board@, game: pairs_view(game@), broken: *broken, ..u }),
            u.result == result,
            ep_on_board(board@),
            game@.len() >= old(game)@.len(),
        decreases toks@.len() - k,
    {
        proof {
            assert(tw.take(k + 1).drop_last() =~= tw.take(k as int));
            assert(tw.take(k + 1).last() == tw[k as int]);
        }
        let ghost v = tokens_scan(u, tw.take(k as int));
        play_token(board, game, broken, result, &toks[k], Ghost(v));
        k = k + 1;
    }
    assert(tw.take(toks@.len() as int) =~= tw);
}

/// The positions a PGN text gives for training, one per long enough game, as
/// `pgn_sampled` describes. Each comes as its FEN text and the game's result in
/// half points for white. A token that cannot be read as a move breaks its game off.
pub fn pgn_samples(lines: &Vec<String>, max_positions: Option<usize>) -> (r: Vec<(String, i8)>)
    ensures
        pairs_view(r@) == pgn_sampled(texts_of(lines@), max_positions),
{
    let ghost texts = texts_of(lines@);
    let mut output: Vec<(String, i8)> = Vec::new();
    let mut game: Vec<(String, i8)> = Vec::new();
    let mut board = Board::new();
    let mut broken = false;
    let mut result: i8 = 1;
    let mut accepted: usize = 0;
    let mut i: usize = 0;
    assert(pairs_view(output@) =~= Seq::<(Seq<char>, i8)>::empty());
    assert(pairs_view(game@) =~= Seq::<(Seq<char>, i8)>::empty());
    while i < lines.len()
        invariant
            i <= lines@.len(),
            texts == texts_of(lines@),
            ({
                let s = lines_scan(pgn_start(), texts.take(i as int), max_positions);
                &&& !s.done
                &&& s.output == pairs_view(output@)
                &&& s.game == pairs_view(game@)
                &&& s.board == board@
                &&& s.broken == broken
                &&& s.result == result
                &&& s.accepted == accepted
            }),
            ep_on_board(board@),
            accepted == output@.len(),
            output@.len() + (if game@.len() > 0 { 1int } else { 0int }) <= i,
        decreases lines@.len() - i,
    {
        let ghost s = lines_scan(pgn_start(), texts.take(i as int), max_positions);
        proof {
            assert(texts.take(i + 1).drop_last() =~= texts.take(i as int));
            assert(texts.take(i + 1).last() == lines@[i as int]@);
        }
        let raw = chars_of(lines[i].as_str());
        let t = trim(&raw);
        if t.len() == 0 {
            i = i + 1;
            continue;
        }
        if t[0] == '[' {
            if result_tag(&t) {
                let done = flush_into(&mut output, &game, broken, max_positions, &mut accepted, Ghost(s));
                if done {
                    proof {
                        lemma_scan_stays_done(texts, i as int + 1, max_positions);
                        assert(texts.take(texts.len() as int) =~= texts);
                    }
                    return output;
                }
                game = Vec::new();
                board = Board::new();
                broken = false;
                let tstr = string_of(&t);
                match PGNLoader::extract_result(tstr.as_str()) {
                    Some(rs) => {
                        result = result_code_of(&rs);
                    },
                    None => {},
                }
                assert(pairs_view(game@) =~= Seq::<(Seq<char>, i8)>::empty());
            }
            i = i + 1;
            continue;
        }
        if !broken {
            play_line(&mut board, &mut game, &mut broken, result, &t, Ghost(s));
        }
        i = i + 1;
    }
    assert(texts.take(lines@.len() as int) =~= texts);
    let ghost s = lines_scan(pgn_start(), texts, max_positions);
    if !broken && game.len() > 0 {
        let done = flush_into(&mut output, &game, broken, max_positions, &mut accepted, Ghost(s));
        if done {
            return output;
        }
    } else if !broken {
        assert(!cap_reached(0, s.output.len() as int, max_positions));
        let capped = match max_positions {
            Some(m) => output.len() >= m,
            None => false,
        };
        if capped {
            return output;
        }
    }
    let ghost before = output@;
    match max_positions {
        Some(m) => {
            if output.len() > m {
                output.truncate(m);
                assert(pairs_view(output@) =~= pairs_view(before).take(m as int));
            }
        },
        None => {},
    }
    output
}

proof fn lemma_scan_stays_done(lines: Seq<Seq<char>>, i: int, max_positions: Option<usize>)
    requires
        0 <= i <= lines.len(),
        lines_scan(pgn_start(), lines.take(i), max_positions).done,
    ensures
        lines_scan(pgn_start(), lines, max_positions) == lines_scan(pgn_start(), lines.take(i), max_positions),
    decreases lines.len() - i,
{
    if i < lines.len() {
        assert(lines.take(i + 1).drop_last() =~= lines.take(i));
        lemma_scan_stays_done(lines, i + 1, max_positions);
    } else {
        assert(lines.take(i) =~= lines);
    }
}

} // verus!
