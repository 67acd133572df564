use vstd::prelude::*;
use crate::board::pieces::Piece;

verus! {

#[derive(Clone, Copy, Debug, PartialEq, Eq, Structural)]
pub enum MoveType {
    Normal,
    Castling,
    EnPassant,
    /// The piece to promote to (queen, rook, bishop or knight).
    Promotion(Piece),
}

#[derive(Clone, Copy, Debug)]
pub struct ChessMove {
    pub from: (usize, usize),
    pub to: (usize, usize),
    pub move_type: MoveType,
}

impl PartialEq for ChessMove {
    fn eq(&self, other: &Self) -> (r: bool) {
        self.from.0 == other.from.0 && self.from.1 == other.from.1 && self.to.0 == other.to.0
            && self.to.1 == other.to.1 && self.move_type == other.move_type
    }
}

impl Eq for ChessMove {}

impl vstd::std_specs::cmp::PartialEqSpecImpl for ChessMove {
    open spec fn obeys_eq_spec() -> bool {
        true
    }

    open spec fn eq_spec(&self, other: &Self) -> bool {
        self.from == other.from && self.to == other.to && self.move_type == other.move_type
    }
}

/// The move from one square to another with the given kind.
pub open spec fn mk_move(fr: int, ff: int, tr: int, tf: int, move_type: MoveType) -> ChessMove {
    ChessMove {
        from: (fr as usize, ff as usize),
        to: (tr as usize, tf as usize),
        move_type,
    }
}

impl ChessMove {
    pub fn new(from_rank: usize, from_file: usize, to_rank: usize, to_file: usize) -> (m: Self)
        ensures
            m == mk_move(from_rank as int, from_file as int, to_rank as int, to_file as int, MoveType::Normal),
    {
        ChessMove { from: (from_rank, from_file), to: (to_rank, to_file), move_type: MoveType::Normal }
    }

    pub fn promotion(
        from_rank: usize,
        from_file: usize,
        to_rank: usize,
        to_file: usize,
        promotion_piece: Piece,
    ) -> (m: Self)
        ensures
            m == mk_move(from_rank as int, from_file as int, to_rank as int, to_file as int,
                MoveType::Promotion(promotion_piece)),
    {
        ChessMove {
            from: (from_rank, from_file),
            to: (to_rank, to_file),
            move_type: MoveType::Promotion(promotion_piece),
        }
    }

    pub fn castling(from_rank: usize, from_file: usize, to_rank: usize, to_file: usize) -> (m: Self)
        ensures
            m == mk_move(from_rank as int, from_file as int, to_rank as int, to_file as int, MoveType::Castling),
    {
        ChessMove { from: (from_rank, from_file), to: (to_rank, to_file), move_type: MoveType::Castling }
    }

    pub fn en_passant(from_rank: usize, from_file: usize, to_rank: usize, to_file: usize) -> (m: Self)
        ensures
            m == mk_move(from_rank as int, from_file as int, to_rank as int, to_file as int, MoveType::EnPassant),
    {
        ChessMove { from: (from_rank, from_file), to: (to_rank, to_file), move_type: MoveType::EnPassant }
    }
}

} // verus!
