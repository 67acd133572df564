use vstd::prelude::*;
use crate::board::board::{
    Board, BoardModel, Color, GameStatus, on_board, abs, sign, step, of_side, opposite, king_of,
};
use crate::board::chess_move::{ChessMove, MoveType, mk_move};
use crate::board::pieces::{Piece, same_side, is_white, is_black};
use crate::text::push_char;
use crate::board::distinct::lemma_legal_moves_distinct;

verus! {

/// The eight knight jumps in the order the generator tries them.
pub open spec fn knight_offset(i: int) -> (int, int) {
    if i == 0 { (-2, -1) }
    else if i == 1 { (-2, 1) }
    else if i == 2 { (-1, -2) }
    else if i == 3 { (-1, 2) }
    else if i == 4 { (1, -2) }
    else if i == 5 { (1, 2) }
    else if i == 6 { (2, -1) }
    else { (2, 1) }
}

/// The eight king steps in the order the generator tries them (rank step, then file step, each from -1 to 1).
pub open spec fn king_offset(i: int) -> (int, int) {
    if i == 0 { (-1, -1) }
    else if i == 1 { (-1, 0) }
    else if i == 2 { (-1, 1) }
    else if i == 3 { (0, -1) }
    else if i == 4 { (0, 1) }
    else if i == 5 { (1, -1) }
    else if i == 6 { (1, 0) }
    else { (1, 1) }
}

/// The four diagonal directions of a bishop.
pub open spec fn bishop_dir(i: int) -> (int, int) {
    if i == 0 { (-1, -1) } else if i == 1 { (-1, 1) } else if i == 2 { (1, -1) } else { (1, 1) }
}

/// The four straight directions of a rook.
pub open spec fn rook_dir(i: int) -> (int, int) {
    if i == 0 { (-1, 0) } else if i == 1 { (1, 0) } else if i == 2 { (0, -1) } else { (0, 1) }
}

/// The four pieces a pawn of a side may promote to, in generation order.
pub open spec fn promotion_pieces(white_side: bool) -> Seq<Piece> {
    if white_side {
        seq![Piece::WhiteQueen, Piece::WhiteRook, Piece::WhiteBishop, Piece::WhiteKnight]
    } else {
        seq![Piece::BlackQueen, Piece::BlackRook, Piece::BlackBishop, Piece::BlackKnight]
    }
}

/// The four promotion moves of a pawn from one square to another.
pub open spec fn promotion_moves(r: int, f: int, tr: int, tf: int, white_side: bool) -> Seq<ChessMove> {
    promotion_pieces(white_side).map_values(|p: Piece| mk_move(r, f, tr, tf, MoveType::Promotion(p)))
}

impl BoardModel {
    /// A piece may land on a square: it is empty or holds an enemy piece.
    pub open spec fn can_land(self, piece: Piece, tr: int, tf: int) -> bool {
        self.at(tr, tf) == Piece::Empty || !same_side(piece, self.at(tr, tf))
    }

    /// The jump or step to a fixed offset, if it stays on the board and may land.
    pub open spec fn offset_move(self, r: int, f: int, o: (int, int)) -> Seq<ChessMove> {
        let (tr, tf) = (r + o.0, f + o.1);
        if on_board(tr, tf) && self.can_land(self.at(r, f), tr, tf) {
            seq![mk_move(r, f, tr, tf, MoveType::Normal)]
        } else {
            Seq::empty()
        }
    }

    pub open spec fn knight_prefix(self, r: int, f: int, n: int) -> Seq<ChessMove>
        decreases n,
    {
        if n <= 0 { Seq::empty() } else { self.knight_prefix(r, f, n - 1) + self.offset_move(r, f, knight_offset(n - 1)) }
    }

    /// The moves of the knight on (r, f): its jumps in order, onto the board, not onto a friend.
    pub open spec fn knight_moves(self, r: int, f: int) -> Seq<ChessMove> {
        self.knight_prefix(r, f, 8)
    }

    pub open spec fn king_step_prefix(self, r: int, f: int, n: int) -> Seq<ChessMove>
        decreases n,
    {
        if n <= 0 { Seq::empty() } else { self.king_step_prefix(r, f, n - 1) + self.offset_move(r, f, king_offset(n - 1)) }
    }

    /// The squares along a ray from (r, f) in direction (dr, df), from distance k on: empty
    /// squares, then the first occupied square if it holds an enemy piece.
    pub open spec fn ray(self, piece: Piece, r: int, f: int, dr: int, df: int, k: int) -> Seq<ChessMove>
        decreases 8 - k,
    {
        if k < 1 || k >= 8 {
            Seq::empty()
        } else {
            let tr = r + step(k, dr);
            let tf = f + step(k, df);
            if !on_board(tr, tf) {
                Seq::empty()
            } else if self.at(tr, tf) == Piece::Empty {
                seq![mk_move(r, f, tr, tf, MoveType::Normal)] + self.ray(piece, r, f, dr, df, k + 1)
            } else if !same_side(piece, self.at(tr, tf)) {
                seq![mk_move(r, f, tr, tf, MoveType::Normal)]
            } else {
                Seq::empty()
            }
        }
    }

    pub open spec fn bishop_prefix(self, r: int, f: int, n: int) -> Seq<ChessMove>
        decreases n,
    {
        if n <= 0 {
            Seq::empty()
        } else {
            let d = bishop_dir(n - 1);
            self.bishop_prefix(r, f, n - 1) + self.ray(self.at(r, f), r, f, d.0, d.1, 1)
        }
    }

    /// The moves of a bishop-like slider on (r, f): the four diagonal rays in order.
    pub open spec fn bishop_moves(self, r: int, f: int) -> Seq<ChessMove> {
        self.bishop_prefix(r, f, 4)
    }

    pub open spec fn rook_prefix(self, r: int, f: int, n: int) -> Seq<ChessMove>
        decreases n,
    {
        if n <= 0 {
            Seq::empty()
        } else {
            let d = rook_dir(n - 1);
            self.rook_prefix(r, f, n - 1) + self.ray(self.at(r, f), r, f, d.0, d.1, 1)
        }
    }

    /// The moves of a rook-like slider on (r, f): the four straight rays in order.
    pub open spec fn rook_moves(self, r: int, f: int) -> Seq<ChessMove> {
        self.rook_prefix(r, f, 4)
    }

    /// The pawn pushes: one step onto an empty square (four promotions on the last rank),
    /// followed by the double step from the starting rank over and onto empty squares.
    pub open spec fn pawn_pushes(self, r: int, f: int) -> Seq<ChessMove> {
        let piece = self.at(r, f);
        let w = piece == Piece::WhitePawn;
        let dir: int = if w { -1 } else { 1 };
        let start: int = if w { 6 } else { 1 };
        let promo: int = if w { 0 } else { 7 };
        let next = r + dir;
        if 0 <= next < 8 && self.at(next, f) == Piece::Empty {
            if next == promo {
                promotion_moves(r, f, next, f, w)
            } else if r == start && self.at(r + 2 * dir, f) == Piece::Empty {
                seq![mk_move(r, f, next, f, MoveType::Normal), mk_move(r, f, r + 2 * dir, f, MoveType::Normal)]
            } else {
                seq![mk_move(r, f, next, f, MoveType::Normal)]
            }
        } else {
            Seq::empty()
        }
    }

    /// The diagonal pawn capture towards file offset `off`, promoting on the last rank.
    pub open spec fn pawn_capture(self, r: int, f: int, off: int) -> Seq<ChessMove> {
        let piece = self.at(r, f);
        let w = piece == Piece::WhitePawn;
        let dir: int = if w { -1 } else { 1 };
        let promo: int = if w { 0 } else { 7 };
        let next = r + dir;
        let tf = f + off;
        if on_board(next, tf) && self.at(next, tf) != Piece::Empty && !same_side(piece, self.at(next, tf)) {
            if next == promo {
                promotion_moves(r, f, next, tf, w)
            } else {
                seq![mk_move(r, f, next, tf, MoveType::Normal)]
            }
        } else {
            Seq::empty()
        }
    }

    /// The en passant capture towards file offset `off` onto the en passant square.
    pub open spec fn pawn_en_passant(self, r: int, f: int, off: int) -> Seq<ChessMove> {
        let w = self.at(r, f) == Piece::WhitePawn;
        let next: int = r + (if w { -1int } else { 1int });
        let tf = f + off;
        if 0 <= tf < 8 && 0 <= next < 8 && self.en_passant is Some
            && self.en_passant.unwrap().0 == next && self.en_passant.unwrap().1 == tf {
            seq![mk_move(r, f, next, tf, MoveType::EnPassant)]
        } else {
            Seq::empty()
        }
    }

    /// The moves of the pawn on (r, f): pushes, captures to the left then right, then
    /// en passant to the left then right. A square without a pawn has none.
    pub open spec fn pawn_moves(self, r: int, f: int) -> Seq<ChessMove> {
        let piece = self.at(r, f);
        if piece == Piece::WhitePawn || piece == Piece::BlackPawn {
            self.pawn_pushes(r, f) + self.pawn_capture(r, f, -1) + self.pawn_capture(r, f, 1)
                + self.pawn_en_passant(r, f, -1) + self.pawn_en_passant(r, f, 1)
        } else {
            Seq::empty()
        }
    }

    /// The pawn attack rule: one rank forward for the side and one file aside.
    pub open spec fn pawn_attacks(self, fr: int, ff: int, tr: int, tf: int, color: Color) -> bool {
        let dir: int = if color == Color::White { -1 } else { 1 };
        tr == fr + dir && (tf == ff - 1 || tf == ff + 1)
    }

    pub open spec fn knight_attacks(self, fr: int, ff: int, tr: int, tf: int) -> bool {
        (abs(fr - tr) == 2 && abs(ff - tf) == 1) || (abs(fr - tr) == 1 && abs(ff - tf) == 2)
    }

    pub open spec fn king_attacks(self, fr: int, ff: int, tr: int, tf: int) -> bool {
        abs(fr - tr) <= 1 && abs(ff - tf) <= 1 && (fr != tr || ff != tf)
    }

    /// A diagonal line with nothing in between.
    pub open spec fn bishop_attacks(self, fr: int, ff: int, tr: int, tf: int) -> bool {
        abs(tr - fr) == abs(tf - ff) && tr - fr != 0 && self.clear_path(fr, ff, tr, tf)
    }

    /// A rank or file with nothing in between (a rook's own square counts as well).
    pub open spec fn rook_attacks(self, fr: int, ff: int, tr: int, tf: int) -> bool {
        (fr == tr || ff == tf) && self.clear_path(fr, ff, tr, tf)
    }

    /// The piece on (fr, ff) belongs to `by` and attacks (tr, tf).
    pub open spec fn attacks_from(self, fr: int, ff: int, tr: int, tf: int, by: Color) -> bool {
        let p = self.at(fr, ff);
        &&& p != Piece::Empty
        &&& of_side(p, by)
        &&& match p {
            Piece::WhitePawn | Piece::BlackPawn => self.pawn_attacks(fr, ff, tr, tf, by),
            Piece::WhiteKnight | Piece::BlackKnight => self.knight_attacks(fr, ff, tr, tf),
            Piece::WhiteBishop | Piece::BlackBishop => self.bishop_attacks(fr, ff, tr, tf),
            Piece::WhiteRook | Piece::BlackRook => self.rook_attacks(fr, ff, tr, tf),
            Piece::WhiteQueen | Piece::BlackQueen => self.bishop_attacks(fr, ff, tr, tf) || self.rook_attacks(fr, ff, tr, tf),
            Piece::WhiteKing | Piece::BlackKing => self.king_attacks(fr, ff, tr, tf),
            Piece::Empty => false,
        }
    }

    /// Some piece of side `by` attacks the square.
    pub open spec fn attacked(self, tr: int, tf: int, by: Color) -> bool {
        exists|fr: int, ff: int| on_board(fr, ff) && #[trigger] self.attacks_from(fr, ff, tr, tf, by)
    }

    /// The first square, in rank-major order from index `i` on, that holds piece `p`.
    pub open spec fn find_from(self, p: Piece, i: int) -> Option<(usize, usize)>
        decreases 64 - i,
    {
        if i < 0 || i >= 64 {
            None
        } else if self.at(i / 8, i % 8) == p {
            Some(((i / 8) as usize, (i % 8) as usize))
        } else {
            self.find_from(p, i + 1)
        }
    }

    /// The square of the king of a side: the first one in rank-major order.
    pub open spec fn king_square(self, color: Color) -> Option<(usize, usize)> {
        self.find_from(king_of(color), 0)
    }

    /// The side's king stands on an attacked square (no king: not in check).
    pub open spec fn in_check(self, color: Color) -> bool {
        match self.king_square(color) {
            None => false,
            Some(k) => self.attacked(k.0 as int, k.1 as int, opposite(color)),
        }
    }

    /// The castling moves of a king on (r, f): kingside first, then queenside.
    pub open spec fn castling_moves(self, r: int, f: int) -> Seq<ChessMove> {
        let piece = self.at(r, f);
        let cr = self.castling;
        if piece == Piece::WhiteKing {
            (if cr.white_kingside && r == 7 && f == 4 && self.at(7, 5) == Piece::Empty
                && self.at(7, 6) == Piece::Empty && self.at(7, 7) == Piece::WhiteRook
                && !self.in_check(Color::White) && !self.attacked(7, 4, Color::Black)
                && !self.attacked(7, 5, Color::Black) {
                seq![mk_move(r, f, r, 6, MoveType::Castling)]
            } else {
                Seq::empty()
            }) + (if cr.white_queenside && r == 7 && f == 4 && self.at(7, 3) == Piece::Empty
                && self.at(7, 2) == Piece::Empty && self.at(7, 1) == Piece::Empty
                && self.at(7, 0) == Piece::WhiteRook && !self.in_check(Color::White)
                && !self.attacked(7, 4, Color::Black) && !self.attacked(7, 3, Color::Black) {
                seq![mk_move(r, f, r, 2, MoveType::Castling)]
            } else {
                Seq::empty()
            })
        } else if piece == Piece::BlackKing {
            (if cr.black_kingside && r == 0 && f == 4 && self.at(0, 5) == Piece::Empty
                && self.at(0, 6) == Piece::Empty && self.at(0, 7) == Piece::BlackRook
                && !self.in_check(Color::Black) && !self.attacked(0, 4, Color::White)
                && !self.attacked(0, 5, Color::White) {
                seq![mk_move(r, f, r, 6, MoveType::Castling)]
            } else {
                Seq::empty()
            }) + (if cr.black_queenside && r == 0 && f == 4 && self.at(0, 3) == Piece::Empty
                && self.at(0, 2) == Piece::Empty && self.at(0, 1) == Piece::Empty
                && self.at(0, 0) == Piece::BlackRook && !self.in_check(Color::Black)
                && !self.attacked(0, 4, Color::White) && !self.attacked(0, 3, Color::White) {
                seq![mk_move(r, f, r, 2, MoveType::Castling)]
            } else {
                Seq::empty()
            })
        } else {
            Seq::empty()
        }
    }

    /// The moves of the king on (r, f): its eight steps in order, then castling.
    pub open spec fn king_moves(self, r: int, f: int) -> Seq<ChessMove> {
        self.king_step_prefix(r, f, 8) + self.castling_moves(r, f)
    }

    /// The pseudo-legal moves of the piece on (r, f) if it belongs to the side to move.
    pub open spec fn square_moves(self, r: int, f: int) -> Seq<ChessMove> {
        let p = self.at(r, f);
        if p == Piece::Empty || !of_side(p, self.turn) {
            Seq::empty()
        } else {
            match p {
                Piece::WhitePawn | Piece::BlackPawn => self.pawn_moves(r, f),
                Piece::WhiteKnight | Piece::BlackKnight => self.knight_moves(r, f),
                Piece::WhiteBishop | Piece::BlackBishop => self.bishop_moves(r, f),
                Piece::WhiteRook | Piece::BlackRook => self.rook_moves(r, f),
                Piece::WhiteQueen | Piece::BlackQueen => self.bishop_moves(r, f) + self.rook_moves(r, f),
                Piece::WhiteKing | Piece::BlackKing => self.king_moves(r, f),
                Piece::Empty => Seq::empty(),
            }
        }
    }

    pub open spec fn pseudo_prefix(self, n: int) -> Seq<ChessMove>
        decreases n,
    {
        if n <= 0 { Seq::empty() } else { self.pseudo_prefix(n - 1) + self.square_moves((n - 1) / 8, (n - 1) % 8) }
    }

    /// The pseudo-legal moves of the side to move, square by square in rank-major order.
    pub open spec fn pseudo_moves(self) -> Seq<ChessMove> {
        self.pseudo_prefix(64)
    }

    /// A pseudo-legal move is legal when it can be carried out and does not leave the
    /// mover's king attacked.
    pub open spec fn legal(self, m: ChessMove) -> bool {
        self.at(m.from.0 as int, m.from.1 as int) != Piece::Empty
            && !self.after_move(m.from, m.to, m.move_type).in_check(self.turn)
    }

    pub open spec fn keep_legal(self, s: Seq<ChessMove>) -> Seq<ChessMove>
        decreases s.len(),
    {
        if s.len() == 0 {
            Seq::empty()
        } else {
            self.keep_legal(s.drop_last()) + (if self.legal(s.last()) { seq![s.last()] } else { Seq::empty() })
        }
    }

    /// The legal moves, in generation order.
    pub open spec fn legal_moves(self) -> Seq<ChessMove> {
        self.keep_legal(self.pseudo_moves())
    }

    /// A generated move stays on the board, and an en passant move has a square behind it.
    pub open spec fn sane_move(self, m: ChessMove) -> bool {
        let p = self.at(m.from.0 as int, m.from.1 as int);
        &&& on_board(m.from.0 as int, m.from.1 as int)
        &&& on_board(m.to.0 as int, m.to.1 as int)
        &&& p != Piece::Empty
        &&& (m.move_type is EnPassant ==> (p == Piece::WhitePawn ==> m.to.0 + 1 < 8) && (p == Piece::BlackPawn ==> m.to.0 >= 1))
    }

    /// Every move of the list starts from a piece of the side to move.
    pub open spec fn own_moves(self, s: Seq<ChessMove>) -> bool {
        forall|i: int| 0 <= i < s.len() ==> of_side(self.at((#[trigger] s[i]).from.0 as int, s[i].from.1 as int), self.turn)
    }

    pub open spec fn all_sane(self, s: Seq<ChessMove>, from: int) -> bool {
        forall|i: int| from <= i < s.len() ==> self.sane_move(#[trigger] s[i])
    }

    /// The status of the game: checkmate or stalemate without legal moves, check or play otherwise.
    pub open spec fn status(self) -> GameStatus {
        if self.legal_moves().len() == 0 {
            if self.in_check(self.turn) { GameStatus::Checkmate } else { GameStatus::Stalemate }
        } else if self.in_check(self.turn) {
            GameStatus::Check
        } else {
            GameStatus::Playing
        }
    }
}

/// The status agrees with check and with the legal moves: it is `Check` or
/// `Checkmate` exactly when the side to move is in check, and `Checkmate` or
/// `Stalemate` exactly when the side to move has no legal move.
pub proof fn lemma_status_agrees(m: BoardModel)
    ensures
        (m.status() == GameStatus::Check || m.status() == GameStatus::Checkmate) <==> m.in_check(m.turn),
        (m.status() == GameStatus::Checkmate || m.status() == GameStatus::Stalemate) <==> m.legal_moves().len() == 0,
{
}


impl Board {
    pub fn square_to_string(square: (usize, usize)) -> (s: String)
        requires
            square.1 % 256 <= 158,
            square.0 % 256 <= 56,
        ensures
            s@ == seq![((97 + square.1 % 256) as u8) as char, ((56 - square.0 % 256) as u8) as char],
    {
        let (rank, file) = square;
        proof {
            assert((file as u8) == file % 256) by (bit_vector);
            assert((rank as u8) == rank % 256) by (bit_vector);
        }
        let fb: u8 = 97u8 + (file as u8);
        let rb: u8 = 56u8 - (rank as u8);
        let mut s = String::new();
        push_char(&mut s, fb as char);
        push_char(&mut s, rb as char);
        proof {
            assert(s@ =~= seq![((97 + square.1 % 256) as u8) as char, ((56 - square.0 % 256) as u8) as char]);
        }
        s
    }

    fn pawn_attacks(&self, from: (usize, usize), target: (usize, usize), color: Color) -> (r: bool)
        requires
            on_board(from.0 as int, from.1 as int),
            on_board(target.0 as int, target.1 as int),
        ensures
            r == self@.pawn_attacks(from.0 as int, from.1 as int, target.0 as int, target.1 as int, color),
    {
        let direction: i32 = match color {
            Color::White => -1,
            Color::Black => 1,
        };
        let rank = from.0 as i32;
        let file = from.1 as i32;
        let target_rank = target.0 as i32;
        let target_file = target.1 as i32;
        target_rank == rank + direction && (target_file == file - 1 || target_file == file + 1)
    }

    fn knight_attacks(&self, from: (usize, usize), target: (usize, usize)) -> (r: bool)
        requires
            on_board(from.0 as int, from.1 as int),
            on_board(target.0 as int, target.1 as int),
        ensures
            r == self@.knight_attacks(from.0 as int, from.1 as int, target.0 as int, target.1 as int),
    {
        let a: i32 = from.0 as i32 - target.0 as i32;
        let b: i32 = from.1 as i32 - target.1 as i32;
        let dr: i32 = if a < 0 { -a } else { a };
        let df: i32 = if b < 0 { -b } else { b };
        (dr == 2 && df == 1) || (dr == 1 && df == 2)
    }

    fn king_attacks(&self, from: (usize, usize), target: (usize, usize)) -> (r: bool)
        requires
            on_board(from.0 as int, from.1 as int),
            on_board(target.0 as int, target.1 as int),
        ensures
            r == self@.king_attacks(from.0 as int, from.1 as int, target.0 as int, target.1 as int),
    {
        let a: i32 = from.0 as i32 - target.0 as i32;
        let b: i32 = from.1 as i32 - target.1 as i32;
        let dr: i32 = if a < 0 { -a } else { a };
        let df: i32 = if b < 0 { -b } else { b };
        dr <= 1 && df <= 1 && (dr != 0 || df != 0)
    }

    fn bishop_attacks(&self, from: (usize, usize), target: (usize, usize)) -> (r: bool)
        requires
            on_board(from.0 as int, from.1 as int),
            on_board(target.0 as int, target.1 as int),
        ensures
            r == self@.bishop_attacks(from.0 as int, from.1 as int, target.0 as int, target.1 as int),
    {
        let dr: i32 = target.0 as i32 - from.0 as i32;
        let df: i32 = target.1 as i32 - from.1 as i32;
        let adr: i32 = if dr < 0 { -dr } else { dr };
        let adf: i32 = if df < 0 { -df } else { df };
        if adr != adf || dr == 0 {
            return false;
        }
        self.path_is_clear(from, target)
    }

    fn rook_attacks(&self, from: (usize, usize), target: (usize, usize)) -> (r: bool)
        requires
            on_board(from.0 as int, from.1 as int),
            on_board(target.0 as int, target.1 as int),
        ensures
            r == self@.rook_attacks(from.0 as int, from.1 as int, target.0 as int, target.1 as int),
    {
        let same_rank = from.0 == target.0;
        let same_file = from.1 == target.1;
        if !same_rank && !same_file {
            return false;
        }
        self.path_is_clear(from, target)
    }

    /// Whether the piece on `from` belongs to `by_color` and attacks `target`.
    fn piece_attacks(&self, from: (usize, usize), target: (usize, usize), by_color: Color) -> (r: bool)
        requires
            on_board(from.0 as int, from.1 as int),
            on_board(target.0 as int, target.1 as int),
        ensures
            r == self@.attacks_from(from.0 as int, from.1 as int, target.0 as int, target.1 as int, by_color),
    {
        let piece = self.squares[from.0][from.1];
        if piece == Piece::Empty {
            return false;
        }
        let correct_color = match by_color {
            Color::White => is_white(piece),
            Color::Black => is_black(piece),
        };
        if !correct_color {
            return false;
        }
        match piece {
            Piece::WhitePawn | Piece::BlackPawn => self.pawn_attacks(from, target, by_color),
            Piece::WhiteKnight | Piece::BlackKnight => self.knight_attacks(from, target),
            Piece::WhiteBishop | Piece::BlackBishop => self.bishop_attacks(from, target),
            Piece::WhiteRook | Piece::BlackRook => self.rook_attacks(from, target),
            Piece::WhiteQueen | Piece::BlackQueen => self.bishop_attacks(from, target) || self.rook_attacks(from, target),
            Piece::WhiteKing | Piece::BlackKing => self.king_attacks(from, target),
            Piece::Empty => false,
        }
    }

    pub fn is_square_attacked(&self, target: (usize, usize), by_color: Color) -> (r: bool)
        requires
            on_board(target.0 as int, target.1 as int),
        ensures
            r == self@.attacked(target.0 as int, target.1 as int, by_color),
    {
        let ghost (tr, tf) = (target.0 as int, target.1 as int);
        let mut rank: usize = 0;
        while rank < 8
            invariant
                rank <= 8,
                tr == target.0 as int,
                tf == target.1 as int,
                on_board(tr, tf),
                forall|r2: int, f2: int| on_board(r2, f2) && r2 < rank ==> !#[trigger] self@.attacks_from(r2, f2, tr, tf, by_color),
            decreases 8 - rank,
        {
            let mut file: usize = 0;
            while file < 8
                invariant
                    rank < 8,
                    file <= 8,
                    tr == target.0 as int,
                    tf == target.1 as int,
                    on_board(tr, tf),
                    forall|r2: int, f2: int| on_board(r2, f2) && (r2 < rank || (r2 == rank && f2 < file))
                        ==> !#[trigger] self@.attacks_from(r2, f2, tr, tf, by_color),
                decreases 8 - file,
            {
                if self.piece_attacks((rank, file), target, by_color) {
                    assert(self@.attacks_from(rank as int, file as int, tr, tf, by_color));
                    return true;
                }
                file = file + 1;
            }
            rank = rank + 1;
        }
        false
    }

    pub(crate) fn find_king(&self, color: Color) -> (r: Option<(usize, usize)>)
        ensures
            r == self@.king_square(color),
    {
        let king = match color {
            Color::White => Piece::WhiteKing,
            Color::Black => Piece::BlackKing,
        };
        let mut rank: usize = 0;
        while rank < 8
            invariant
                rank <= 8,
                king == king_of(color),
                self@.find_from(king, 0) == self@.find_from(king, (rank * 8) as int),
            decreases 8 - rank,
        {
            let mut file: usize = 0;
            while file < 8
                invariant
                    rank < 8,
                    file <= 8,
                    king == king_of(color),
                    self@.find_from(king, 0) == self@.find_from(king, (rank * 8 + file) as int),
                decreases 8 - file,
            {
                let i: usize = rank * 8 + file;
                assert(i / 8 == rank && i % 8 == file);
                if self.squares[rank][file] == king {
                    return Some((rank, file));
                }
                file = file + 1;
            }
            rank = rank + 1;
        }
        proof { false_is_none(self@, king); }
        None
    }

    pub fn is_in_check(&self, color: Color) -> (r: bool)
        ensures
            r == self@.in_check(color),
    {
        let king_square = match self.find_king(color) {
            Some(square) => square,
            None => return false,
        };
        proof {
            lemma_find_on_board(self@, king_of(color), 0);
        }
        let attacking_color = match color {
            Color::White => Color::Black,
            Color::Black => Color::White,
        };
        self.is_square_attacked(king_square, attacking_color)
    }
}

proof fn false_is_none(m: BoardModel, p: Piece)
    ensures
        m.find_from(p, 64) is None,
{
}

/// A square found by the scan lies on the board.
pub proof fn lemma_find_on_board(m: BoardModel, p: Piece, i: int)
    ensures
        m.find_from(p, i) matches Some(sq) ==> on_board(sq.0 as int, sq.1 as int) && m.at(sq.0 as int, sq.1 as int) == p,
    decreases 64 - i,
{
    if 0 <= i < 64 && m.at(i / 8, i % 8) != p {
        lemma_find_on_board(m, p, i + 1);
    }
}

/// Filtering a list of candidates keeps exactly those that are legal, each one taken from
/// the list.
pub proof fn lemma_keep_legal(m: BoardModel, s: Seq<ChessMove>)
    ensures
        forall|i: int| 0 <= i < m.keep_legal(s).len() ==> m.legal(#[trigger] m.keep_legal(s)[i]) && s.contains(m.keep_legal(s)[i]),
        forall|j: int| 0 <= j < s.len() && m.legal(#[trigger] s[j]) ==> m.keep_legal(s).contains(s[j]),
    decreases s.len(),
{
    if s.len() > 0 {
        let init = s.drop_last();
        lemma_keep_legal(m, init);
        let k = m.keep_legal(s);
        let k0 = m.keep_legal(init);
        assert forall|i: int| 0 <= i < k.len() implies m.legal(#[trigger] k[i]) && s.contains(k[i]) by {
            if i < k0.len() {
                assert(k[i] == k0[i]);
                let w = choose|w: int| 0 <= w < init.len() && init[w] == k0[i];
                assert(s[w] == init[w]);
            } else {
                assert(k[i] == s.last());
                assert(s[s.len() - 1] == s.last());
            }
        }
        assert forall|j: int| 0 <= j < s.len() && m.legal(#[trigger] s[j]) implies k.contains(s[j]) by {
            if j < s.len() - 1 {
                assert(init[j] == s[j]);
                let w = choose|w: int| 0 <= w < k0.len() && k0[w] == init[j];
                assert(k[w] == k0[w]);
            } else {
                assert(k[k.len() - 1] == s.last());
            }
        }
    }
}

/// The legal moves are the generated candidates that do not leave the mover's king
/// attacked: every one of them keeps the king safe, and no safe candidate is missing.
pub proof fn lemma_legal_moves_keep_king_safe(m: BoardModel)
    ensures
        forall|i: int| 0 <= i < m.legal_moves().len() ==> {
            let mv = #[trigger] m.legal_moves()[i];
            &&& m.pseudo_moves().contains(mv)
            &&& m.at(mv.from.0 as int, mv.from.1 as int) != Piece::Empty
            &&& !m.after_move(mv.from, mv.to, mv.move_type).in_check(m.turn)
        },
        forall|j: int| 0 <= j < m.pseudo_moves().len() && m.legal(#[trigger] m.pseudo_moves()[j])
            ==> m.legal_moves().contains(m.pseudo_moves()[j]),
{
    lemma_keep_legal(m, m.pseudo_moves());
}


impl Board {
    fn generate_pawn_moves(&self, rank: usize, file: usize, moves: &mut Vec<ChessMove>)
        requires
            rank < 8,
            file < 8,
        ensures
            final(moves)@ == old(moves)@ + self@.pawn_moves(rank as int, file as int),
            self@.at(rank as int, file as int) != Piece::Empty ==> self@.all_sane(final(moves)@, old(moves)@.len() as int),
            forall|i: int| old(moves)@.len() <= i < final(moves)@.len() ==> (#[trigger] final(moves)@[i]).from == (rank, file),
    {
        crate::movegen::pawn::generate(self, rank, file, moves);
        proof {
            assert forall|i: int| old(moves)@.len() <= i < moves@.len() implies self@.sane_move(#[trigger] moves@[i]) by {
                assert(crate::movegen::pawn::pawn_move_ok(moves@[i], rank, file, self@.at(rank as int, file as int)));
            }
        }
    }

    fn generate_knight_moves(&self, rank: usize, file: usize, moves: &mut Vec<ChessMove>)
        requires
            rank < 8,
            file < 8,
        ensures
            final(moves)@ == old(moves)@ + self@.knight_moves(rank as int, file as int),
            self@.at(rank as int, file as int) != Piece::Empty ==> self@.all_sane(final(moves)@, old(moves)@.len() as int),
            forall|i: int| old(moves)@.len() <= i < final(moves)@.len() ==> (#[trigger] final(moves)@[i]).from == (rank, file),
    {
        crate::movegen::knight::generate(self, rank, file, moves);
    }

    fn generate_bishop_moves(&self, rank: usize, file: usize, moves: &mut Vec<ChessMove>)
        requires
            rank < 8,
            file < 8,
        ensures
            final(moves)@ == old(moves)@ + self@.bishop_moves(rank as int, file as int),
            self@.at(rank as int, file as int) != Piece::Empty ==> self@.all_sane(final(moves)@, old(moves)@.len() as int),
            forall|i: int| old(moves)@.len() <= i < final(moves)@.len() ==> (#[trigger] final(moves)@[i]).from == (rank, file),
    {
        crate::movegen::bishop::generate(self, rank, file, moves);
    }

    fn generate_rook_moves(&self, rank: usize, file: usize, moves: &mut Vec<ChessMove>)
        requires
            rank < 8,
            file < 8,
        ensures
            final(moves)@ == old(moves)@ + self@.rook_moves(rank as int, file as int),
            self@.at(rank as int, file as int) != Piece::Empty ==> self@.all_sane(final(moves)@, old(moves)@.len() as int),
            forall|i: int| old(moves)@.len() <= i < final(moves)@.len() ==> (#[trigger] final(moves)@[i]).from == (rank, file),
    {
        crate::movegen::rook::generate(self, rank, file, moves);
    }

    fn generate_king_moves(&self, rank: usize, file: usize, moves: &mut Vec<ChessMove>)
        requires
            rank < 8,
            file < 8,
        ensures
            final(moves)@ == old(moves)@ + self@.king_moves(rank as int, file as int),
            self@.at(rank as int, file as int) != Piece::Empty ==> self@.all_sane(final(moves)@, old(moves)@.len() as int),
            forall|i: int| old(moves)@.len() <= i < final(moves)@.len() ==> (#[trigger] final(moves)@[i]).from == (rank, file),
    {
        crate::movegen::king::generate(self, rank, file, moves);
    }

    fn generate_square_moves(&self, rank: usize, file: usize, moves: &mut Vec<ChessMove>)
        requires
            rank < 8,
            file < 8,
            self@.all_sane(old(moves)@, 0),
            self@.own_moves(old(moves)@),
        ensures
            final(moves)@ == old(moves)@ + self@.square_moves(rank as int, file as int),
            self@.all_sane(final(moves)@, 0),
            self@.own_moves(final(moves)@),
    {
        let piece = self.squares[rank][file];
        if piece == Piece::Empty {
            assert(final(moves)@ =~= old(moves)@ + self@.square_moves(rank as int, file as int));
            return;
        }
        let correct = match self.turn {
            Color::White => is_white(piece),
            Color::Black => is_black(piece),
        };
        if !correct {
            assert(final(moves)@ =~= old(moves)@ + self@.square_moves(rank as int, file as int));
            return;
        }
        match piece {
            Piece::WhitePawn | Piece::BlackPawn => {
                self.generate_pawn_moves(rank, file, moves);
            },
            Piece::WhiteKnight | Piece::BlackKnight => {
                self.generate_knight_moves(rank, file, moves);
            },
            Piece::WhiteBishop | Piece::BlackBishop => {
                self.generate_bishop_moves(rank, file, moves);
            },
            Piece::WhiteRook | Piece::BlackRook => {
                self.generate_rook_moves(rank, file, moves);
            },
            Piece::WhiteQueen | Piece::BlackQueen => {
                self.generate_bishop_moves(rank, file, moves);
                self.generate_rook_moves(rank, file, moves);
                assert(moves@ =~= old(moves)@ + self@.square_moves(rank as int, file as int));
            },
            Piece::WhiteKing | Piece::BlackKing => {
                self.generate_king_moves(rank, file, moves);
            },
            Piece::Empty => {},
        }
    }

    /// All pseudo-legal moves of the side to move.
    fn generate_pseudo_moves(&self) -> (moves: Vec<ChessMove>)
        ensures
            moves@ == self@.pseudo_moves(),
            self@.all_sane(moves@, 0),
            self@.own_moves(moves@),
    {
        let mut moves: Vec<ChessMove> = Vec::new();
        let mut rank: usize = 0;
        while rank < 8
            invariant
                rank <= 8,
                moves@ == self@.pseudo_prefix((rank * 8) as int),
                self@.all_sane(moves@, 0),
                self@.own_moves(moves@),
            decreases 8 - rank,
        {
            let mut file: usize = 0;
            while file < 8
                invariant
                    rank < 8,
                    file <= 8,
                    moves@ == self@.pseudo_prefix((rank * 8 + file) as int),
                    self@.all_sane(moves@, 0),
                    self@.own_moves(moves@),
                decreases 8 - file,
            {
                let ghost i: int = (rank * 8 + file) as int;
                assert(i / 8 == rank && i % 8 == file);
                assert(self@.pseudo_prefix(i + 1) == self@.pseudo_prefix(i) + self@.square_moves(rank as int, file as int));
                self.generate_square_moves(rank, file, &mut moves);
                file = file + 1;
            }
            rank = rank + 1;
        }
        moves
    }

    /// The legal moves of the side to move, in generation order.
    pub fn generate_moves(&self) -> (moves: Vec<ChessMove>)
        requires
            self@.counters_ok(),
        ensures
            moves@ == self@.legal_moves(),
            self@.all_sane(moves@, 0),
            self@.own_moves(moves@),
            moves@.no_duplicates(),
    {
        proof {
            lemma_legal_moves_distinct(self@);
        }
        let pseudo_moves = self.generate_pseudo_moves();
        let mut legal_moves: Vec<ChessMove> = Vec::new();
        let mut i: usize = 0;
        while i < pseudo_moves.len()
            invariant
                i <= pseudo_moves@.len(),
                self@.counters_ok(),
                pseudo_moves@ == self@.pseudo_moves(),
                self@.all_sane(pseudo_moves@, 0),
                legal_moves@ == self@.keep_legal(pseudo_moves@.take(i as int)),
                self@.all_sane(legal_moves@, 0),
                self@.own_moves(pseudo_moves@),
                self@.own_moves(legal_moves@),
            decreases pseudo_moves@.len() - i,
        {
            let mv = pseudo_moves[i];
            assert(pseudo_moves@.take(i + 1).drop_last() =~= pseudo_moves@.take(i as int));
            assert(self@.sane_move(pseudo_moves@[i as int]));
            let mut next_board = *self;
            let res = next_board.execute_move(mv.from, mv.to, mv.move_type);
            if res.is_ok() {
                let moving_color = self.turn;
                if !next_board.is_in_check(moving_color) {
                    legal_moves.push(mv);
                }
            }
            i = i + 1;
        }
        assert(pseudo_moves@.take(pseudo_moves@.len() as int) =~= pseudo_moves@);
        legal_moves
    }

    pub fn is_checkmate(&self) -> (r: bool)
        requires
            self@.counters_ok(),
        ensures
            r == (self@.in_check(self@.turn) && self@.legal_moves().len() == 0),
    {
        self.is_in_check(self.turn) && self.generate_moves().len() == 0
    }

    pub fn is_stalemate(&self) -> (r: bool)
        requires
            self@.counters_ok(),
        ensures
            r == (!self@.in_check(self@.turn) && self@.legal_moves().len() == 0),
    {
        !self.is_in_check(self.turn) && self.generate_moves().len() == 0
    }

    pub fn is_check(&self) -> (r: bool)
        ensures
            r == self@.in_check(self@.turn),
    {
        self.is_in_check(self.turn)
    }

    pub fn game_status(&self) -> (s: GameStatus)
        requires
            self@.counters_ok(),
        ensures
            s == self@.status(),
    {
        let in_check = self.is_in_check(self.turn);
        let legal_moves = self.generate_moves();
        if legal_moves.len() == 0 {
            if in_check {
                GameStatus::Checkmate
            } else {
                GameStatus::Stalemate
            }
        } else if in_check {
            GameStatus::Check
        } else {
            GameStatus::Playing
        }
    }
}

} // verus!
