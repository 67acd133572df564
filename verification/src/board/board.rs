use vstd::prelude::*;
use crate::board::pieces::{Piece, white, black, same_side, is_white, is_black, same_color};
use crate::board::chess_move::MoveType;
use crate::text::{push_char, chars_of, message, message_char};
use vstd::string::{StringSliceAdditionalSpecFns, StrSliceExecFns};

verus! {

#[derive(Clone, Copy, Debug, PartialEq, Eq, Structural)]
pub enum Color {
    White,
    Black,
}

/// The other side.
pub open spec fn opposite(c: Color) -> Color {
    match c {
        Color::White => Color::Black,
        Color::Black => Color::White,
    }
}

/// Whether a piece belongs to the given side.
pub open spec fn of_side(p: Piece, c: Color) -> bool {
    match c {
        Color::White => white(p),
        Color::Black => black(p),
    }
}

#[derive(Clone, Copy, Debug, PartialEq, Eq, Structural)]
pub struct CastlingRights {
    pub white_kingside: bool,
    pub white_queenside: bool,
    pub black_kingside: bool,
    pub black_queenside: bool,
}

/// No castling right at all.
pub open spec fn no_rights() -> CastlingRights {
    CastlingRights {
        white_kingside: false,
        white_queenside: false,
        black_kingside: false,
        black_queenside: false,
    }
}

/// The FEN castling field: the letters K, Q, k, q of the rights held, or `-`.
pub open spec fn rights_text(cr: CastlingRights) -> Seq<char> {
    let t = (if cr.white_kingside { seq!['K'] } else { Seq::empty() })
        + (if cr.white_queenside { seq!['Q'] } else { Seq::empty() })
        + (if cr.black_kingside { seq!['k'] } else { Seq::empty() })
        + (if cr.black_queenside { seq!['q'] } else { Seq::empty() });
    if t.len() == 0 { seq!['-'] } else { t }
}

pub open spec fn rights_letter(c: char) -> bool {
    c == 'K' || c == 'Q' || c == 'k' || c == 'q'
}

/// What a FEN castling field denotes: `-` for none; otherwise any sequence of
/// the letters K, Q, k, q grants the rights whose letters occur in it.
pub open spec fn rights_parse(s: Seq<char>) -> Option<CastlingRights> {
    if s == seq!['-'] {
        Some(no_rights())
    } else if forall|i: int| 0 <= i < s.len() ==> rights_letter(#[trigger] s[i]) {
        Some(CastlingRights {
            white_kingside: s.contains('K'),
            white_queenside: s.contains('Q'),
            black_kingside: s.contains('k'),
            black_queenside: s.contains('q'),
        })
    } else {
        None
    }
}

/// An element occurs in a sequence extended by one element exactly when it
/// occurred before or is the new element.
pub proof fn lemma_contains_push<A>(s: Seq<A>, a: A, x: A)
    ensures
        s.push(a).contains(x) <==> (s.contains(x) || x == a),
{
    if s.push(a).contains(x) {
        let j = choose|j: int| 0 <= j < s.push(a).len() && #[trigger] s.push(a)[j] == x;
        if j < s.len() {
            assert(s[j] == x);
        }
    }
    if s.contains(x) {
        let j = choose|j: int| 0 <= j < s.len() && #[trigger] s[j] == x;
        assert(s.push(a)[j] == x);
    }
    if x == a {
        assert(s.push(a)[s.len() as int] == x);
    }
}

impl CastlingRights {
    pub fn new() -> (r: Self)
        ensures
            r.white_kingside && r.white_queenside && r.black_kingside && r.black_queenside,
    {
        CastlingRights {
            white_kingside: true,
            white_queenside: true,
            black_kingside: true,
            black_queenside: true,
        }
    }

    pub fn to_string(&self) -> (s: String)
        ensures
            s@ == rights_text(*self),
    {
        let mut result = String::new();
        if self.white_kingside {
            push_char(&mut result, 'K');
        }
        if self.white_queenside {
            push_char(&mut result, 'Q');
        }
        if self.black_kingside {
            push_char(&mut result, 'k');
        }
        if self.black_queenside {
            push_char(&mut result, 'q');
        }
        if result.as_str().unicode_len() == 0 {
            push_char(&mut result, '-');
        }
        proof {
            let e = Seq::<char>::empty();
            let t = (if self.white_kingside { seq!['K'] } else { e })
                + (if self.white_queenside { seq!['Q'] } else { e })
                + (if self.black_kingside { seq!['k'] } else { e })
                + (if self.black_queenside { seq!['q'] } else { e });
            assert(t.len() == 0 ==> result@ =~= seq!['-']);
            assert(t.len() != 0 ==> result@ =~= t);
        }
        result
    }

    pub fn from_string(s: &str) -> (r: Result<Self, String>)
        ensures
            rights_parse(s@) is Some ==> r == Ok::<Self, String>(rights_parse(s@).unwrap()),
            rights_parse(s@) is None ==> r is Err,
    {
        let cs = chars_of(s);
        if cs.len() == 1 && cs[0] == '-' {
            assert(s@ =~= seq!['-']);
            return Ok(CastlingRights {
                white_kingside: false,
                white_queenside: false,
                black_kingside: false,
                black_queenside: false,
            });
        }
        assert(s@ != seq!['-']);
        let mut rights = CastlingRights {
            white_kingside: false,
            white_queenside: false,
            black_kingside: false,
            black_queenside: false,
        };
        let mut i: usize = 0;
        while i < cs.len()
            invariant
                i <= cs@.len(),
                cs@ == s@,
                s@ != seq!['-'],
                forall|k: int| 0 <= k < i ==> rights_letter(#[trigger] cs@[k]),
                rights.white_kingside == cs@.take(i as int).contains('K'),
                rights.white_queenside == cs@.take(i as int).contains('Q'),
                rights.black_kingside == cs@.take(i as int).contains('k'),
                rights.black_queenside == cs@.take(i as int).contains('q'),
            decreases cs@.len() - i,
        {
            let c = cs[i];
            let ghost pre = cs@.take(i as int);
            assert(cs@.take(i + 1) =~= pre.push(c));
            proof {
                lemma_contains_push(pre, c, 'K');
                lemma_contains_push(pre, c, 'Q');
                lemma_contains_push(pre, c, 'k');
                lemma_contains_push(pre, c, 'q');
            }
            match c {
                'K' => rights.white_kingside = true,
                'Q' => rights.white_queenside = true,
                'k' => rights.black_kingside = true,
                'q' => rights.black_queenside = true,
                _ => {
                    proof {
                        assert(cs@[i as int] == c);
                        assert(c != 'K' && c != 'Q' && c != 'k' && c != 'q');
                        assert(!rights_letter(s@[i as int]));
                    }
                    return Err(message_char("Invalid castling right: ", c));
                },
            }
            i = i + 1;
        }
        assert(cs@.take(cs@.len() as int) =~= cs@);
        Ok(rights)
    }
}

/// A position as the contracts speak of it: the 8x8 grid, rank 0 being the
/// eighth rank (black's back rank) and file 0 the a-file, the side to move,
/// castling rights, en passant square and the two move counters.
#[verifier::ext_equal]
pub ghost struct BoardModel {
    pub grid: Seq<Seq<Piece>>,
    pub turn: Color,
    pub castling: CastlingRights,
    pub en_passant: Option<(usize, usize)>,
    pub halfmove: int,
    pub fullmove: int,
}

pub open spec fn abs(x: int) -> int {
    if x < 0 { -x } else { x }
}

pub open spec fn sign(x: int) -> int {
    if x > 0 { 1 } else if x < 0 { -1 } else { 0 }
}

/// `k` steps in direction `s` (which is -1, 0 or 1).
pub open spec fn step(k: int, s: int) -> int {
    if s > 0 { k } else if s < 0 { -k } else { 0 }
}

/// The king distance between two squares.
pub open spec fn dist(fr: int, ff: int, tr: int, tf: int) -> int {
    if abs(tr - fr) >= abs(tf - ff) { abs(tr - fr) } else { abs(tf - ff) }
}

/// Two squares lie on one rank, file or diagonal.
pub open spec fn aligned(fr: int, ff: int, tr: int, tf: int) -> bool {
    tr - fr == 0 || tf - ff == 0 || abs(tr - fr) == abs(tf - ff)
}

pub open spec fn on_board(r: int, f: int) -> bool {
    0 <= r < 8 && 0 <= f < 8
}

pub open spec fn is_pawn(p: Piece) -> bool {
    p == Piece::WhitePawn || p == Piece::BlackPawn
}

pub open spec fn is_king(p: Piece) -> bool {
    p == Piece::WhiteKing || p == Piece::BlackKing
}

/// The king of a side.
pub open spec fn king_of(c: Color) -> Piece {
    match c {
        Color::White => Piece::WhiteKing,
        Color::Black => Piece::BlackKing,
    }
}

/// A move keeps a castling right only while the king and the rook of that corner
/// stay untouched: the right is lost when that side's king moves, when a rook
/// leaves the corner and when a rook standing on the corner is taken; no right is
/// ever gained.
pub proof fn lemma_castling_rights_after(m: BoardModel, from: (usize, usize), to: (usize, usize), mt: MoveType)
    ensures
        ({
            let piece = m.at(from.0 as int, from.1 as int);
            let dest = m.at(to.0 as int, to.1 as int);
            let c = m.after_move(from, to, mt).castling;
            &&& c.white_kingside == (m.castling.white_kingside && piece != Piece::WhiteKing
                && !(piece == Piece::WhiteRook && from == (7usize, 7usize))
                && !(dest == Piece::WhiteRook && to == (7usize, 7usize)))
            &&& c.white_queenside == (m.castling.white_queenside && piece != Piece::WhiteKing
                && !(piece == Piece::WhiteRook && from == (7usize, 0usize))
                && !(dest == Piece::WhiteRook && to == (7usize, 0usize)))
            &&& c.black_kingside == (m.castling.black_kingside && piece != Piece::BlackKing
                && !(piece == Piece::BlackRook && from == (0usize, 7usize))
                && !(dest == Piece::BlackRook && to == (0usize, 7usize)))
            &&& c.black_queenside == (m.castling.black_queenside && piece != Piece::BlackKing
                && !(piece == Piece::BlackRook && from == (0usize, 0usize))
                && !(dest == Piece::BlackRook && to == (0usize, 0usize)))
        }),
{
}

/// The castling rights after a move of `piece` from `from` onto a square that held `dest`:
/// a king move gives up both of its side's rights, a rook leaving its corner or
/// a rook taken on its corner gives up that corner's right.
pub open spec fn rights_after(
    cr: CastlingRights,
    piece: Piece,
    from: (usize, usize),
    dest: Piece,
    to: (usize, usize),
) -> CastlingRights {
    let c1 = if piece == Piece::WhiteKing {
        CastlingRights { white_kingside: false, white_queenside: false, ..cr }
    } else if piece == Piece::BlackKing {
        CastlingRights { black_kingside: false, black_queenside: false, ..cr }
    } else {
        cr
    };
    let c2 = if piece == Piece::WhiteRook {
        if from == (7usize, 0usize) {
            CastlingRights { white_queenside: false, ..c1 }
        } else if from == (7usize, 7usize) {
            CastlingRights { white_kingside: false, ..c1 }
        } else {
            c1
        }
    } else if piece == Piece::BlackRook {
        if from == (0usize, 0usize) {
            CastlingRights { black_queenside: false, ..c1 }
        } else if from == (0usize, 7usize) {
            CastlingRights { black_kingside: false, ..c1 }
        } else {
            c1
        }
    } else {
        c1
    };
    if dest == Piece::WhiteRook {
        if to == (7usize, 0usize) {
            CastlingRights { white_queenside: false, ..c2 }
        } else if to == (7usize, 7usize) {
            CastlingRights { white_kingside: false, ..c2 }
        } else {
            c2
        }
    } else if dest == Piece::BlackRook {
        if to == (0usize, 0usize) {
            CastlingRights { black_queenside: false, ..c2 }
        } else if to == (0usize, 7usize) {
            CastlingRights { black_kingside: false, ..c2 }
        } else {
            c2
        }
    } else {
        c2
    }
}

impl BoardModel {
    pub open spec fn at(self, r: int, f: int) -> Piece {
        self.grid[r][f]
    }

    /// The grid with one square replaced.
    pub open spec fn put(self, r: int, f: int, p: Piece) -> Seq<Seq<Piece>> {
        self.grid.update(r, self.grid[r].update(f, p))
    }

    pub open spec fn with_grid(self, g: Seq<Seq<Piece>>) -> BoardModel {
        BoardModel { grid: g, ..self }
    }

    /// The position after the placement part of a move of the given kind: the
    /// moving piece (or the promotion piece) lands on `to` and leaves `from`; a
    /// castling king also brings the rook of the side to move from its corner
    /// next to it; an en passant pawn removes the pawn behind its landing square.
    pub open spec fn placed(self, from: (usize, usize), to: (usize, usize), mt: MoveType) -> Seq<Seq<Piece>> {
        let (fr, ff) = (from.0 as int, from.1 as int);
        let (tr, tf) = (to.0 as int, to.1 as int);
        let piece = self.at(fr, ff);
        match mt {
            MoveType::Castling => {
                let b1 = self.with_grid(self.put(tr, tf, piece));
                let b2 = b1.with_grid(b1.put(fr, ff, Piece::Empty));
                let back: int = if self.turn == Color::White { 7 } else { 0 };
                if tf == 6 {
                    let b3 = b2.with_grid(b2.put(back, 5, b2.at(back, 7)));
                    b3.put(back, 7, Piece::Empty)
                } else if tf == 2 {
                    let b3 = b2.with_grid(b2.put(back, 3, b2.at(back, 0)));
                    b3.put(back, 0, Piece::Empty)
                } else {
                    b2.grid
                }
            },
            MoveType::EnPassant => {
                let b1 = self.with_grid(self.put(tr, tf, piece));
                let b2 = b1.with_grid(b1.put(fr, ff, Piece::Empty));
                if piece == Piece::WhitePawn {
                    b2.put(tr + 1, tf, Piece::Empty)
                } else if piece == Piece::BlackPawn {
                    b2.put(tr - 1, tf, Piece::Empty)
                } else {
                    b2.grid
                }
            },
            MoveType::Promotion(pp) => {
                let b1 = self.with_grid(self.put(tr, tf, pp));
                b1.put(fr, ff, Piece::Empty)
            },
            MoveType::Normal => {
                let b1 = self.with_grid(self.put(tr, tf, piece));
                b1.put(fr, ff, Piece::Empty)
            },
        }
    }

    /// Whether a move resets the fifty-move counter: a pawn moves, something is
    /// taken, or the move is an en passant capture or a promotion.
    pub open spec fn resets_clock(self, from: (usize, usize), to: (usize, usize), mt: MoveType) -> bool {
        let piece = self.at(from.0 as int, from.1 as int);
        let dest = self.at(to.0 as int, to.1 as int);
        is_pawn(piece) || dest != Piece::Empty || mt is EnPassant || mt is Promotion
    }

    /// The en passant square that a move creates: the square a pawn skipped on a
    /// double step from its starting rank.
    pub open spec fn ep_after(self, from: (usize, usize), to: (usize, usize)) -> Option<(usize, usize)> {
        let piece = self.at(from.0 as int, from.1 as int);
        if piece == Piece::WhitePawn && from.0 == 6 && to.0 == 4 {
            Some((5usize, from.1))
        } else if piece == Piece::BlackPawn && from.0 == 1 && to.0 == 3 {
            Some((2usize, from.1))
        } else {
            None
        }
    }

    /// The position after a move from `from` to `to` of the given kind.
    pub open spec fn after_move(self, from: (usize, usize), to: (usize, usize), mt: MoveType) -> BoardModel {
        let piece = self.at(from.0 as int, from.1 as int);
        let dest = self.at(to.0 as int, to.1 as int);
        BoardModel {
            grid: self.placed(from, to, mt),
            turn: opposite(self.turn),
            castling: rights_after(self.castling, piece, from, dest, to),
            en_passant: self.ep_after(from, to),
            halfmove: if self.resets_clock(from, to, mt) { 0 } else { self.halfmove + 1 },
            fullmove: if self.turn == Color::Black { self.fullmove + 1 } else { self.fullmove },
        }
    }

    /// A move can be carried out without leaving the board or overflowing a counter.
    pub open spec fn can_execute(self, from: (usize, usize), to: (usize, usize), mt: MoveType) -> bool {
        let piece = self.at(from.0 as int, from.1 as int);
        &&& on_board(from.0 as int, from.1 as int)
        &&& on_board(to.0 as int, to.1 as int)
        &&& piece != Piece::Empty ==> {
            &&& (!self.resets_clock(from, to, mt) ==> self.halfmove < u32::MAX)
            &&& (self.turn == Color::Black ==> self.fullmove < u32::MAX)
            &&& (mt is EnPassant && piece == Piece::WhitePawn ==> to.0 + 1 < 8)
            &&& (mt is EnPassant && piece == Piece::BlackPawn ==> to.0 >= 1)
        }
    }

    /// Every square strictly between two squares on one rank, file or diagonal is empty.
    pub open spec fn clear_path(self, fr: int, ff: int, tr: int, tf: int) -> bool {
        let sr = sign(tr - fr);
        let sf = sign(tf - ff);
        let n = dist(fr, ff, tr, tf);
        forall|k: int| 1 <= k < n ==> #[trigger] self.at(fr + step(k, sr), ff + step(k, sf)) == Piece::Empty
    }

    /// The pawn-move rule of `make_move`: one step forward onto an empty square,
    /// two steps from the starting rank over an empty square onto an empty square,
    /// or one step diagonally forward onto an enemy piece.
    pub open spec fn valid_pawn(self, fr: int, ff: int, tr: int, tf: int, color: Color) -> bool {
        let dir: int = if color == Color::White { -1 } else { 1 };
        let start: int = if color == Color::White { 6 } else { 1 };
        let rd = tr - fr;
        let fd = tf - ff;
        let dest = self.at(tr, tf);
        ||| (fd == 0 && rd == dir && dest == Piece::Empty)
        ||| (fd == 0 && fr == start && rd == 2 * dir && self.at(fr + dir, ff) == Piece::Empty
            && dest == Piece::Empty)
        ||| (abs(fd) == 1 && rd == dir && dest != Piece::Empty && !same_side(self.at(fr, ff), dest))
    }

    /// The sliding rule of `make_move`: the move follows an allowed line (diagonal
    /// and/or rank or file) and the squares in between are empty.
    pub open spec fn valid_sliding(self, fr: int, ff: int, tr: int, tf: int, diagonal: bool, straight: bool) -> bool {
        let rd = tr - fr;
        let fd = tf - ff;
        let is_diag = abs(rd) == abs(fd);
        let is_straight = rd == 0 || fd == 0;
        if diagonal && !straight && !is_diag {
            false
        } else if straight && !diagonal && !is_straight {
            false
        } else if diagonal && straight && !is_diag && !is_straight {
            false
        } else {
            self.clear_path(fr, ff, tr, tf)
        }
    }

    /// Whether `make_move` lets `piece` go from one square to another by its movement rule.
    pub open spec fn valid_piece_move(self, piece: Piece, fr: int, ff: int, tr: int, tf: int) -> bool {
        let ard = abs(tr - fr);
        let afd = abs(tf - ff);
        match piece {
            Piece::WhitePawn => self.valid_pawn(fr, ff, tr, tf, Color::White),
            Piece::BlackPawn => self.valid_pawn(fr, ff, tr, tf, Color::Black),
            Piece::WhiteKnight | Piece::BlackKnight => (ard == 2 && afd == 1) || (ard == 1 && afd == 2),
            Piece::WhiteKing | Piece::BlackKing => (ard == 0 && afd == 2) || (ard <= 1 && afd <= 1),
            Piece::WhiteBishop | Piece::BlackBishop => self.valid_sliding(fr, ff, tr, tf, true, false),
            Piece::WhiteRook | Piece::BlackRook => self.valid_sliding(fr, ff, tr, tf, false, true),
            Piece::WhiteQueen | Piece::BlackQueen => self.valid_sliding(fr, ff, tr, tf, true, true),
            Piece::Empty => false,
        }
    }

    /// The kind that `make_move` gives a move: a king moving two files castles; a pawn
    /// landing on the en passant square while it is empty takes en passant, and a pawn
    /// reaching the last rank promotes to a queen.
    pub open spec fn move_kind(self, from: (usize, usize), to: (usize, usize)) -> MoveType {
        let piece = self.at(from.0 as int, from.1 as int);
        let dest = self.at(to.0 as int, to.1 as int);
        if is_king(piece) {
            if abs(from.1 - to.1) == 2 { MoveType::Castling } else { MoveType::Normal }
        } else if is_pawn(piece) {
            if to.0 == 0 || to.0 == 7 {
                MoveType::Promotion(if piece == Piece::WhitePawn { Piece::WhiteQueen } else { Piece::BlackQueen })
            } else if self.en_passant == Some(to) && dest == Piece::Empty {
                MoveType::EnPassant
            } else {
                MoveType::Normal
            }
        } else {
            MoveType::Normal
        }
    }

    /// The move that `make_move` carries out for two coordinate texts, or `None` when it refuses:
    /// both coordinates must parse, the origin must hold a piece of the side to move that may go to
    /// the target by its movement rule, and the target must not hold a piece of the same side.
    pub open spec fn move_plan(self, from_s: Seq<char>, to_s: Seq<char>) -> Option<((usize, usize), (usize, usize), MoveType)> {
        match (square_of(from_s), square_of(to_s)) {
            (Some(f), Some(t)) => {
                let piece = self.at(f.0 as int, f.1 as int);
                let dest = self.at(t.0 as int, t.1 as int);
                if piece == Piece::Empty || !of_side(piece, self.turn)
                    || !self.valid_piece_move(piece, f.0 as int, f.1 as int, t.0 as int, t.1 as int)
                    || (dest != Piece::Empty && same_side(piece, dest)) {
                    None
                } else {
                    Some((f, t, self.move_kind(f, t)))
                }
            },
            _ => None,
        }
    }

    /// Neither counter is at its largest value, so any move can be counted.
    pub open spec fn counters_ok(self) -> bool {
        self.halfmove < u32::MAX && self.fullmove < u32::MAX
    }
}

#[derive(Clone, Copy)]
pub struct Board {
    pub squares: [[Piece; 8]; 8],
    pub turn: Color,
    pub castling_rights: CastlingRights,
    pub en_passant_square: Option<(usize, usize)>,
    pub halfmove_clock: u32,
    pub fullmove_number: u32,
}

impl View for Board {
    type V = BoardModel;

    open spec fn view(&self) -> BoardModel {
        BoardModel {
            grid: Seq::new(8, |r: int| self.squares[r]@),
            turn: self.turn,
            castling: self.castling_rights,
            en_passant: self.en_passant_square,
            halfmove: self.halfmove_clock as int,
            fullmove: self.fullmove_number as int,
        }
    }
}

#[derive(Clone, Copy, Debug, PartialEq, Eq, Structural)]
pub enum GameStatus {
    Playing,
    Check,
    Checkmate,
    Stalemate,
}

/// The square that a two-character coordinate such as `e4` names, as (rank index, file index):
/// file letters a..h give files 0..7 and rank digits 8..1 give rank indices 0..7.
pub open spec fn square_of(s: Seq<char>) -> Option<(usize, usize)> {
    if s.len() == 2 && 'a' <= s[0] && s[0] <= 'h' && '1' <= s[1] && s[1] <= '8' {
        Some(((8 - ((s[1] as u32) - 48)) as usize, ((s[0] as u32) - 97) as usize))
    } else {
        None
    }
}

/// The coordinate text of a square: file letter then rank digit.
pub open spec fn square_text(sq: (usize, usize)) -> Seq<char> {
    seq![((97 + sq.1) as u8) as char, ((56 - sq.0) as u8) as char]
}

/// Reading a square back from its coordinate text gives the square.
pub proof fn lemma_square_text_roundtrip(sq: (usize, usize))
    requires
        on_board(sq.0 as int, sq.1 as int),
    ensures
        square_of(square_text(sq)) == Some(sq),
{
    let t = square_text(sq);
    assert(t[0] as u32 == 97 + sq.1);
    assert(t[1] as u32 == 56 - sq.0);
}

/// Writing a square read from a coordinate text gives the text back.
pub proof fn lemma_square_of_roundtrip(s: Seq<char>)
    requires
        square_of(s) is Some,
    ensures
        square_text(square_of(s).unwrap()) == s,
        on_board(square_of(s).unwrap().0 as int, square_of(s).unwrap().1 as int),
{
    let sq = square_of(s).unwrap();
    let t = square_text(sq);
    assert(t[0] as u32 == s[0] as u32);
    assert(t[1] as u32 == s[1] as u32);
    assert(t =~= s);
}

/// A coordinate text is two ASCII characters, so it takes two bytes.
proof fn lemma_square_bytes(s: &str)
    requires
        square_of(s@) is Some,
    ensures
        s.spec_bytes().len() == 2,
{
    assert(vstd::utf8::is_ascii_chars(s@));
    vstd::utf8::is_ascii_chars_encode_utf8(s@);
}

/// Parses a square coordinate such as `e4`.
pub fn parse_square(square: &str) -> (r: Result<(usize, usize), String>)
    ensures
        square_of(square@) is Some ==> r == Ok::<(usize, usize), String>(square_of(square@).unwrap()),
        square_of(square@) is None ==> r is Err,
{
    if square.len() != 2 {
        proof {
            if square_of(square@) is Some {
                lemma_square_bytes(square);
            }
        }
        return Err(message("Invalid square: ", square));
    }
    let n = square.unicode_len();
    if n == 0 {
        return Err(message("Invalid file: ", square));
    }
    let c0 = square.get_char(0);
    if !('a' <= c0 && c0 <= 'h') {
        return Err(message("Invalid file: ", square));
    }
    if n < 2 {
        return Err(message("Invalid rank: ", square));
    }
    let c1 = square.get_char(1);
    if !('1' <= c1 && c1 <= '8') {
        return Err(message("Invalid rank: ", square));
    }
    if n != 2 {
        return Err(message("Invalid square: ", square));
    }
    let file = (c0 as u32 - 97) as usize;
    let rank = (8 - (c1 as u32 - 48)) as usize;
    Ok((rank, file))
}

impl Board {
    pub fn square_to_string_public(square: (usize, usize)) -> (s: String)
        requires
            square.1 % 256 <= 158,
            square.0 % 256 <= 56,
        ensures
            s@ == seq![((97 + square.1 % 256) as u8) as char, ((56 - square.0 % 256) as u8) as char],
    {
        Self::square_to_string(square)
    }

    pub fn parse_square_public(square: &str) -> (r: Result<(usize, usize), String>)
        ensures
            square_of(square@) is Some ==> r == Ok::<(usize, usize), String>(square_of(square@).unwrap()),
            square_of(square@) is None ==> r is Err,
    {
        parse_square(square)
    }

    /// The piece on a square.
    pub fn piece_at(&self, rank: usize, file: usize) -> (p: Piece)
        requires
            rank < 8,
            file < 8,
        ensures
            p == self@.at(rank as int, file as int),
    {
        self.squares[rank][file]
    }

    /// Places a piece on a square.
    pub fn set_piece(&mut self, rank: usize, file: usize, p: Piece)
        requires
            rank < 8,
            file < 8,
        ensures
            final(self)@ == old(self)@.with_grid(old(self)@.put(rank as int, file as int, p)),
    {
        self.squares[rank][file] = p;
        assert(self@.grid =~~= old(self)@.put(rank as int, file as int, p));
    }
}


/// Walking the king distance from one square towards an aligned square reaches it,
/// and no shorter walk does.
pub proof fn lemma_aligned_walk(fr: int, ff: int, tr: int, tf: int, k: int)
    requires
        aligned(fr, ff, tr, tf),
        1 <= k <= dist(fr, ff, tr, tf),
    ensures
        fr + step(dist(fr, ff, tr, tf), sign(tr - fr)) == tr,
        ff + step(dist(fr, ff, tr, tf), sign(tf - ff)) == tf,
        (fr + step(k, sign(tr - fr)) == tr && ff + step(k, sign(tf - ff)) == tf) ==> k == dist(fr, ff, tr, tf),
{
}

/// A move that `make_move` accepts can be carried out whenever the counters have room.
pub proof fn lemma_plan_executable(m: BoardModel, from_s: Seq<char>, to_s: Seq<char>)
    requires
        m.counters_ok(),
    ensures
        m.move_plan(from_s, to_s) matches Some((f, t, mt)) ==> m.can_execute(f, t, mt),
{
    if m.move_plan(from_s, to_s) is Some {
        let f = square_of(from_s).unwrap();
        let t = square_of(to_s).unwrap();
        lemma_square_of_roundtrip(from_s);
        lemma_square_of_roundtrip(to_s);
    }
}

/// The opening position.
pub open spec fn start_grid() -> Seq<Seq<Piece>> {
    let e = Seq::new(8, |f: int| Piece::Empty);
    seq![
        seq![Piece::BlackRook, Piece::BlackKnight, Piece::BlackBishop, Piece::BlackQueen,
            Piece::BlackKing, Piece::BlackBishop, Piece::BlackKnight, Piece::BlackRook],
        Seq::new(8, |f: int| Piece::BlackPawn),
        e, e, e, e,
        Seq::new(8, |f: int| Piece::WhitePawn),
        seq![Piece::WhiteRook, Piece::WhiteKnight, Piece::WhiteBishop, Piece::WhiteQueen,
            Piece::WhiteKing, Piece::WhiteBishop, Piece::WhiteKnight, Piece::WhiteRook],
    ]
}

pub open spec fn start_model() -> BoardModel {
    BoardModel {
        grid: start_grid(),
        turn: Color::White,
        castling: CastlingRights {
            white_kingside: true,
            white_queenside: true,
            black_kingside: true,
            black_queenside: true,
        },
        en_passant: None,
        halfmove: 0,
        fullmove: 1,
    }
}

impl Board {
    pub fn new() -> (b: Self)
        ensures
            b@ == start_model(),
    {
        let mut board = Board {
            squares: [[Piece::Empty; 8]; 8],
            turn: Color::White,
            castling_rights: CastlingRights::new(),
            en_passant_square: None,
            halfmove_clock: 0,
            fullmove_number: 1,
        };
        board.squares[0] = [
            Piece::BlackRook, Piece::BlackKnight, Piece::BlackBishop, Piece::BlackQueen,
            Piece::BlackKing, Piece::BlackBishop, Piece::BlackKnight, Piece::BlackRook,
        ];
        board.squares[1] = [Piece::BlackPawn; 8];
        board.squares[6] = [Piece::WhitePawn; 8];
        board.squares[7] = [
            Piece::WhiteRook, Piece::WhiteKnight, Piece::WhiteBishop, Piece::WhiteQueen,
            Piece::WhiteKing, Piece::WhiteBishop, Piece::WhiteKnight, Piece::WhiteRook,
        ];
        assert(board@.grid =~~= start_grid());
        board
    }

    /// Whether every square strictly between two aligned squares is empty.
    pub fn path_is_clear(&self, from: (usize, usize), to: (usize, usize)) -> (r: bool)
        requires
            on_board(from.0 as int, from.1 as int),
            on_board(to.0 as int, to.1 as int),
            aligned(from.0 as int, from.1 as int, to.0 as int, to.1 as int),
        ensures
            r == self@.clear_path(from.0 as int, from.1 as int, to.0 as int, to.1 as int),
    {
        let ghost (fr, ff, tr, tf) = (from.0 as int, from.1 as int, to.0 as int, to.1 as int);
        let rd: i32 = to.0 as i32 - from.0 as i32;
        let fd: i32 = to.1 as i32 - from.1 as i32;
        let rs: i32 = if rd > 0 { 1 } else if rd < 0 { -1 } else { 0 };
        let fs: i32 = if fd > 0 { 1 } else if fd < 0 { -1 } else { 0 };
        let ghost n = dist(fr, ff, tr, tf);
        let mut r: i32 = from.0 as i32 + rs;
        let mut f: i32 = from.1 as i32 + fs;
        let ghost mut k: int = 1;
        let tr_i: i32 = to.0 as i32;
        let tf_i: i32 = to.1 as i32;
        while r != tr_i || f != tf_i
            invariant
                tr_i as int == tr,
                tf_i as int == tf,
                fr == from.0 as int,
                ff == from.1 as int,
                tr == to.0 as int,
                tf == to.1 as int,
                on_board(fr, ff),
                on_board(tr, tf),
                aligned(fr, ff, tr, tf),
                rs == sign(tr - fr),
                fs == sign(tf - ff),
                n == dist(fr, ff, tr, tf),
                r == fr + step(k, rs as int),
                f == ff + step(k, fs as int),
                1 <= k,
                n == 0 ==> k == 1,
                n > 0 ==> k <= n,
                n > 0 ==> on_board(r as int, f as int),
                forall|j: int| 1 <= j < k ==> #[trigger] self@.at(fr + step(j, rs as int), ff + step(j, fs as int)) == Piece::Empty,
            decreases n - k,
        {
            proof {
                if n == 0 {
                    assert(tr == fr && tf == ff);
                    assert(r as int == tr && f as int == tf);
                }
                assert(n > 0);
                lemma_aligned_walk(fr, ff, tr, tf, k);
                assert(k < n);
            }
            if self.squares[r as usize][f as usize] != Piece::Empty {
                assert(self@.at(fr + step(k, sign(tr - fr)), ff + step(k, sign(tf - ff))) != Piece::Empty);
                assert(1 <= k < dist(fr, ff, tr, tf));
                assert(!self@.clear_path(fr, ff, tr, tf));
                return false;
            }
            r = r + rs;
            f = f + fs;
            proof { k = k + 1; }
        }
        true
    }

    fn is_correct_turn(&self, piece: Piece) -> (r: bool)
        ensures
            r == of_side(piece, self.turn),
    {
        match self.turn {
            Color::White => is_white(piece),
            Color::Black => is_black(piece),
        }
    }

    fn valid_sliding_move(
        &self,
        from_rank: usize,
        from_file: usize,
        to_rank: usize,
        to_file: usize,
        diagonal: bool,
        straight: bool,
    ) -> (r: bool)
        requires
            on_board(from_rank as int, from_file as int),
            on_board(to_rank as int, to_file as int),
            diagonal || straight,
        ensures
            r == self@.valid_sliding(from_rank as int, from_file as int, to_rank as int, to_file as int, diagonal, straight),
    {
        let rank_diff: i32 = to_rank as i32 - from_rank as i32;
        let file_diff: i32 = to_file as i32 - from_file as i32;
        let ard: i32 = if rank_diff < 0 { -rank_diff } else { rank_diff };
        let afd: i32 = if file_diff < 0 { -file_diff } else { file_diff };
        let is_diagonal = ard == afd;
        let is_straight = rank_diff == 0 || file_diff == 0;
        if diagonal && !straight && !is_diagonal {
            return false;
        }
        if straight && !diagonal && !is_straight {
            return false;
        }
        if diagonal && straight && !is_diagonal && !is_straight {
            return false;
        }
        self.path_is_clear((from_rank, from_file), (to_rank, to_file))
    }

    fn valid_pawn_move(
        &self,
        from_rank: usize,
        from_file: usize,
        to_rank: usize,
        to_file: usize,
        color: Color,
    ) -> (r: bool)
        requires
            on_board(from_rank as int, from_file as int),
            on_board(to_rank as int, to_file as int),
        ensures
            r == self@.valid_pawn(from_rank as int, from_file as int, to_rank as int, to_file as int, color),
    {
        let direction: i32 = match color {
            Color::White => -1,
            Color::Black => 1,
        };
        let start_rank: usize = match color {
            Color::White => 6,
            Color::Black => 1,
        };
        let rank_diff: i32 = to_rank as i32 - from_rank as i32;
        let file_diff: i32 = to_file as i32 - from_file as i32;
        let destination = self.squares[to_rank][to_file];
        if file_diff == 0 && rank_diff == direction && destination == Piece::Empty {
            return true;
        }
        if file_diff == 0 && from_rank == start_rank && rank_diff == direction * 2 {
            let middle_rank: usize = (from_rank as i32 + direction) as usize;
            return self.squares[middle_rank][from_file] == Piece::Empty && destination == Piece::Empty;
        }
        let afd: i32 = if file_diff < 0 { -file_diff } else { file_diff };
        if afd == 1 && rank_diff == direction && destination != Piece::Empty
            && !same_color(self.squares[from_rank][from_file], destination)
        {
            return true;
        }
        false
    }

    fn is_valid_piece_move(
        &self,
        piece: Piece,
        from_rank: usize,
        from_file: usize,
        to_rank: usize,
        to_file: usize,
    ) -> (r: bool)
        requires
            on_board(from_rank as int, from_file as int),
            on_board(to_rank as int, to_file as int),
        ensures
            r == self@.valid_piece_move(piece, from_rank as int, from_file as int, to_rank as int, to_file as int),
    {
        let rd: i32 = to_rank as i32 - from_rank as i32;
        let fd: i32 = to_file as i32 - from_file as i32;
        let rank_diff: i32 = if rd < 0 { -rd } else { rd };
        let file_diff: i32 = if fd < 0 { -fd } else { fd };
        match piece {
            Piece::WhitePawn => self.valid_pawn_move(from_rank, from_file, to_rank, to_file, Color::White),
            Piece::BlackPawn => self.valid_pawn_move(from_rank, from_file, to_rank, to_file, Color::Black),
            Piece::WhiteKnight | Piece::BlackKnight => {
                (rank_diff == 2 && file_diff == 1) || (rank_diff == 1 && file_diff == 2)
            },
            Piece::WhiteKing | Piece::BlackKing => {
                (rank_diff == 0 && file_diff == 2) || (rank_diff <= 1 && file_diff <= 1)
            },
            Piece::WhiteBishop | Piece::BlackBishop => {
                self.valid_sliding_move(from_rank, from_file, to_rank, to_file, true, false)
            },
            Piece::WhiteRook | Piece::BlackRook => {
                self.valid_sliding_move(from_rank, from_file, to_rank, to_file, false, true)
            },
            Piece::WhiteQueen | Piece::BlackQueen => {
                self.valid_sliding_move(from_rank, from_file, to_rank, to_file, true, true)
            },
            Piece::Empty => false,
        }
    }

    fn update_castling_rights(&mut self, piece: Piece, from: (usize, usize), destination: Piece, to: (usize, usize))
        ensures
            final(self)@ == (BoardModel {
                castling: rights_after(old(self)@.castling, piece, from, destination, to),
                ..old(self)@
            }),
    {
        match piece {
            Piece::WhiteKing => {
                self.castling_rights.white_kingside = false;
                self.castling_rights.white_queenside = false;
            },
            Piece::BlackKing => {
                self.castling_rights.black_kingside = false;
                self.castling_rights.black_queenside = false;
            },
            _ => {},
        }
        let (from_rank, from_file) = from;
        let (to_rank, to_file) = to;
        if piece == Piece::WhiteRook {
            if from_rank == 7 && from_file == 0 {
                self.castling_rights.white_queenside = false;
            } else if from_rank == 7 && from_file == 7 {
                self.castling_rights.white_kingside = false;
            }
        } else if piece == Piece::BlackRook {
            if from_rank == 0 && from_file == 0 {
                self.castling_rights.black_queenside = false;
            } else if from_rank == 0 && from_file == 7 {
                self.castling_rights.black_kingside = false;
            }
        }
        if destination == Piece::WhiteRook {
            if to_rank == 7 && to_file == 0 {
                self.castling_rights.white_queenside = false;
            } else if to_rank == 7 && to_file == 7 {
                self.castling_rights.white_kingside = false;
            }
        } else if destination == Piece::BlackRook {
            if to_rank == 0 && to_file == 0 {
                self.castling_rights.black_queenside = false;
            } else if to_rank == 0 && to_file == 7 {
                self.castling_rights.black_kingside = false;
            }
        }
        assert(self@ =~~= (BoardModel {
            castling: rights_after(old(self)@.castling, piece, from, destination, to),
            ..old(self)@
        }));
    }

    fn place_pieces(&mut self, from: (usize, usize), to: (usize, usize), move_type: MoveType)
        requires
            on_board(from.0 as int, from.1 as int),
            on_board(to.0 as int, to.1 as int),
            old(self)@.at(from.0 as int, from.1 as int) != Piece::Empty,
            move_type is EnPassant && old(self)@.at(from.0 as int, from.1 as int) == Piece::WhitePawn ==> to.0 + 1 < 8,
            move_type is EnPassant && old(self)@.at(from.0 as int, from.1 as int) == Piece::BlackPawn ==> to.0 >= 1,
        ensures
            final(self)@ == old(self)@.with_grid(old(self)@.placed(from, to, move_type)),
    {
        let ghost m0 = self@;
        let (from_rank, from_file) = from;
        let (to_rank, to_file) = to;
        let piece = self.squares[from_rank][from_file];
        match move_type {
            MoveType::Castling => {
                self.set_piece(to_rank, to_file, piece);
                self.set_piece(from_rank, from_file, Piece::Empty);
                match self.turn {
                    Color::White => {
                        if to_file == 6 {
                            let rook = self.squares[7][7];
                            self.set_piece(7, 5, rook);
                            self.set_piece(7, 7, Piece::Empty);
                        } else if to_file == 2 {
                            let rook = self.squares[7][0];
                            self.set_piece(7, 3, rook);
                            self.set_piece(7, 0, Piece::Empty);
                        }
                    },
                    Color::Black => {
                        if to_file == 6 {
                            let rook = self.squares[0][7];
                            self.set_piece(0, 5, rook);
                            self.set_piece(0, 7, Piece::Empty);
                        } else if to_file == 2 {
                            let rook = self.squares[0][0];
                            self.set_piece(0, 3, rook);
                            self.set_piece(0, 0, Piece::Empty);
                        }
                    },
                }
            },
            MoveType::EnPassant => {
                self.set_piece(to_rank, to_file, piece);
                self.set_piece(from_rank, from_file, Piece::Empty);
                match piece {
                    Piece::WhitePawn => {
                        self.set_piece(to_rank + 1, to_file, Piece::Empty);
                    },
                    Piece::BlackPawn => {
                        self.set_piece(to_rank - 1, to_file, Piece::Empty);
                    },
                    _ => {},
                }
            },
            MoveType::Promotion(promotion_piece) => {
                self.set_piece(to_rank, to_file, promotion_piece);
                self.set_piece(from_rank, from_file, Piece::Empty);
            },
            MoveType::Normal => {
                self.set_piece(to_rank, to_file, piece);
                self.set_piece(from_rank, from_file, Piece::Empty);
            },
        }
        assert(self@ =~~= m0.with_grid(m0.placed(from, to, move_type)));
    }

    pub fn execute_move(&mut self, from: (usize, usize), to: (usize, usize), move_type: MoveType) -> (r: Result<(), String>)
        requires
            old(self)@.can_execute(from, to, move_type),
        ensures
            old(self)@.at(from.0 as int, from.1 as int) == Piece::Empty ==> r is Err && final(self)@ == old(self)@,
            old(self)@.at(from.0 as int, from.1 as int) != Piece::Empty ==> r is Ok
                && final(self)@ == old(self)@.after_move(from, to, move_type),
    {
        let ghost m0 = self@;
        let (from_rank, from_file) = from;
        let (to_rank, to_file) = to;
        let piece = self.squares[from_rank][from_file];
        if piece == Piece::Empty {
            return Err(String::from_str("Cannot move from empty square"));
        }
        self.en_passant_square = None;
        let destination = self.squares[to_rank][to_file];
        if piece == Piece::WhitePawn || piece == Piece::BlackPawn || destination != Piece::Empty
            || matches!(move_type, MoveType::EnPassant | MoveType::Promotion(_))
        {
            self.halfmove_clock = 0;
        } else {
            self.halfmove_clock = self.halfmove_clock + 1;
        }
        if piece == Piece::WhitePawn && from_rank == 6 && to_rank == 4 {
            self.en_passant_square = Some((5, from_file));
        } else if piece == Piece::BlackPawn && from_rank == 1 && to_rank == 3 {
            self.en_passant_square = Some((2, from_file));
        }
        self.update_castling_rights(piece, from, destination, to);
        self.place_pieces(from, to, move_type);
        self.turn = match self.turn {
            Color::White => Color::Black,
            Color::Black => Color::White,
        };
        if self.turn == Color::White {
            self.fullmove_number = self.fullmove_number + 1;
        }
        assert(self@ =~~= m0.after_move(from, to, move_type));
        Ok(())
    }

    pub fn make_move(&mut self, from: &str, to: &str) -> (r: Result<(), String>)
        requires
            old(self)@.move_plan(from@, to@) matches Some((f, t, mt)) ==> old(self)@.can_execute(f, t, mt),
        ensures
            old(self)@.move_plan(from@, to@) is None ==> r is Err && final(self)@ == old(self)@,
            old(self)@.move_plan(from@, to@) matches Some((f, t, mt)) ==> r is Ok
                && final(self)@ == old(self)@.after_move(f, t, mt),
    {
        let (from_rank, from_file) = match parse_square(from) {
            Ok(sq) => sq,
            Err(e) => return Err(e),
        };
        let (to_rank, to_file) = match parse_square(to) {
            Ok(sq) => sq,
            Err(e) => return Err(e),
        };
        proof {
            lemma_square_of_roundtrip(from@);
            lemma_square_of_roundtrip(to@);
        }
        let piece = self.squares[from_rank][from_file];
        if piece == Piece::Empty {
            return Err(message("No piece on ", from));
        }
        if !self.is_correct_turn(piece) {
            return Err(String::from_str("It is not that side's turn"));
        }
        if !self.is_valid_piece_move(piece, from_rank, from_file, to_rank, to_file) {
            return Err(message("Illegal move to ", to));
        }
        let destination = self.squares[to_rank][to_file];
        if destination != Piece::Empty && same_color(piece, destination) {
            return Err(String::from_str("Cannot capture your own piece"));
        }
        let mut move_type = MoveType::Normal;
        if piece == Piece::WhiteKing || piece == Piece::BlackKing {
            let d: i32 = from_file as i32 - to_file as i32;
            if d == 2 || d == -2 {
                move_type = MoveType::Castling;
            }
        } else if piece == Piece::WhitePawn || piece == Piece::BlackPawn {
            if let Some((ep_rank, ep_file)) = self.en_passant_square {
                if to_rank == ep_rank && to_file == ep_file && destination == Piece::Empty {
                    move_type = MoveType::EnPassant;
                }
            }
            if to_rank == 0 || to_rank == 7 {
                let promo_piece = if piece == Piece::WhitePawn { Piece::WhiteQueen } else { Piece::BlackQueen };
                move_type = MoveType::Promotion(promo_piece);
            }
        }
        assert(move_type == self@.move_kind((from_rank, from_file), (to_rank, to_file)));
        self.execute_move((from_rank, from_file), (to_rank, to_file), move_type)
    }
}

} // verus!
