//! The integer side of the neural network evaluation: input features,
//! training-data extraction from games, self-play settings and the reading of
//! Stockfish network files.

pub mod architecture;
pub mod features;
pub mod incremental;
pub mod pgn_loader;
pub mod selfplay;
pub mod sf_loader;
pub mod sf_probe;

pub use features::FeatureGenerator;
pub use pgn_loader::PGNLoader;
pub use selfplay::{SelfPlayConfig, SelfPlayGenerator, MatchRunner};
pub use sf_loader::SFNNUELoader;
pub use sf_probe::{SFNNUEInfo, SFNNUEProbe};
