//! Positional evaluation terms: piece mobility, king safety, rook activity and
//! pawn structure. Each term is white's advantage turned into the side to
//! move's point of view.

pub mod mobility;
pub mod king_safety;
pub mod rooks;
pub mod pawns;

pub use mobility::PieceMobility;
pub use king_safety::KingSafety;
pub use rooks::RookActivity;
pub use pawns::PawnStructure;
