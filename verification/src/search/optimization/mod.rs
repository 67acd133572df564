//! Pruning, reduction and ordering rules used by the alpha-beta search.

pub mod futility;
pub mod lmr;
pub mod null_move;
pub mod aspiration;
pub mod ordering;
pub mod see;
pub mod quiescence;
pub mod alphabeta;
pub mod pvs;
pub mod iterative;
pub mod transposition;

pub use ordering::MoveOrderingStrategies;
pub use transposition::TranspositionIntegration;
pub use quiescence::QuiescenceSearch;
pub use alphabeta::AlphaBeta;
pub use pvs::PrincipalVariationSearch;
pub use iterative::IterativeDeepening;
