use vstd::prelude::*;

verus! {

#[derive(Clone, Copy, Debug, PartialEq, Eq, Structural)]
pub enum Piece {
    Empty,
    WhitePawn,
    WhiteKnight,
    WhiteBishop,
    WhiteRook,
    WhiteQueen,
    WhiteKing,
    BlackPawn,
    BlackKnight,
    BlackBishop,
    BlackRook,
    BlackQueen,
    BlackKing,
}

/// A white piece.
pub open spec fn white(p: Piece) -> bool {
    ||| p == Piece::WhitePawn
    ||| p == Piece::WhiteKnight
    ||| p == Piece::WhiteBishop
    ||| p == Piece::WhiteRook
    ||| p == Piece::WhiteQueen
    ||| p == Piece::WhiteKing
}

/// A black piece.
pub open spec fn black(p: Piece) -> bool {
    ||| p == Piece::BlackPawn
    ||| p == Piece::BlackKnight
    ||| p == Piece::BlackBishop
    ||| p == Piece::BlackRook
    ||| p == Piece::BlackQueen
    ||| p == Piece::BlackKing
}

/// Both pieces belong to the same side (the empty square belongs to none).
pub open spec fn same_side(a: Piece, b: Piece) -> bool {
    (white(a) && white(b)) || (black(a) && black(b))
}

/// The letter that stands for a piece in a diagram; '.' for the empty square.
pub open spec fn piece_letter(p: Piece) -> char {
    match p {
        Piece::Empty => '.',
        Piece::WhitePawn => 'P',
        Piece::WhiteKnight => 'N',
        Piece::WhiteBishop => 'B',
        Piece::WhiteRook => 'R',
        Piece::WhiteQueen => 'Q',
        Piece::WhiteKing => 'K',
        Piece::BlackPawn => 'p',
        Piece::BlackKnight => 'n',
        Piece::BlackBishop => 'b',
        Piece::BlackRook => 'r',
        Piece::BlackQueen => 'q',
        Piece::BlackKing => 'k',
    }
}

/// The piece that a FEN letter denotes, if any.
pub open spec fn letter_piece(c: char) -> Option<Piece> {
    if c == 'P' { Some(Piece::WhitePawn) }
    else if c == 'N' { Some(Piece::WhiteKnight) }
    else if c == 'B' { Some(Piece::WhiteBishop) }
    else if c == 'R' { Some(Piece::WhiteRook) }
    else if c == 'Q' { Some(Piece::WhiteQueen) }
    else if c == 'K' { Some(Piece::WhiteKing) }
    else if c == 'p' { Some(Piece::BlackPawn) }
    else if c == 'n' { Some(Piece::BlackKnight) }
    else if c == 'b' { Some(Piece::BlackBishop) }
    else if c == 'r' { Some(Piece::BlackRook) }
    else if c == 'q' { Some(Piece::BlackQueen) }
    else if c == 'k' { Some(Piece::BlackKing) }
    else { None }
}

pub fn is_white(piece: Piece) -> (r: bool)
    ensures
        r == white(piece),
{
    match piece {
        Piece::WhitePawn | Piece::WhiteKnight | Piece::WhiteBishop | Piece::WhiteRook
        | Piece::WhiteQueen | Piece::WhiteKing => true,
        _ => false,
    }
}

pub fn is_black(piece: Piece) -> (r: bool)
    ensures
        r == black(piece),
{
    match piece {
        Piece::BlackPawn | Piece::BlackKnight | Piece::BlackBishop | Piece::BlackRook
        | Piece::BlackQueen | Piece::BlackKing => true,
        _ => false,
    }
}

pub fn same_color(a: Piece, b: Piece) -> (r: bool)
    ensures
        r == same_side(a, b),
{
    (is_white(a) && is_white(b)) || (is_black(a) && is_black(b))
}

pub fn piece_to_char(piece: Piece) -> (c: char)
    ensures
        c == piece_letter(piece),
{
    match piece {
        Piece::Empty => '.',
        Piece::WhitePawn => 'P',
        Piece::WhiteKnight => 'N',
        Piece::WhiteBishop => 'B',
        Piece::WhiteRook => 'R',
        Piece::WhiteQueen => 'Q',
        Piece::WhiteKing => 'K',
        Piece::BlackPawn => 'p',
        Piece::BlackKnight => 'n',
        Piece::BlackBishop => 'b',
        Piece::BlackRook => 'r',
        Piece::BlackQueen => 'q',
        Piece::BlackKing => 'k',
    }
}

/// The FEN letter of a piece; the empty square has none.
pub fn piece_to_fen_char(piece: Piece) -> (c: char)
    requires
        piece != Piece::Empty,
    ensures
        c == piece_letter(piece),
{
    piece_to_char(piece)
}

pub fn char_to_piece(c: char) -> (r: Result<Piece, String>)
    ensures
        letter_piece(c) is Some ==> r == Ok::<Piece, String>(letter_piece(c).unwrap()),
        letter_piece(c) is None ==> r is Err,
{
    match c {
        'P' => Ok(Piece::WhitePawn),
        'N' => Ok(Piece::WhiteKnight),
        'B' => Ok(Piece::WhiteBishop),
        'R' => Ok(Piece::WhiteRook),
        'Q' => Ok(Piece::WhiteQueen),
        'K' => Ok(Piece::WhiteKing),
        'p' => Ok(Piece::BlackPawn),
        'n' => Ok(Piece::BlackKnight),
        'b' => Ok(Piece::BlackBishop),
        'r' => Ok(Piece::BlackRook),
        'q' => Ok(Piece::BlackQueen),
        'k' => Ok(Piece::BlackKing),
        _ => Err(crate::text::message_char("Invalid piece character: ", c)),
    }
}

/// Every letter that `char_to_piece` accepts names a piece that `piece_to_fen_char`
/// writes back as the same letter, and every piece is read back from its letter.
pub proof fn lemma_piece_letter_roundtrip(p: Piece, c: char)
    ensures
        p != Piece::Empty ==> letter_piece(piece_letter(p)) == Some(p),
        letter_piece(c) is Some ==> piece_letter(letter_piece(c).unwrap()) == c,
{
}

} // verus!
