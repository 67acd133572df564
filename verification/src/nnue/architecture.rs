use vstd::prelude::*;

verus! {

/// The number of network inputs: six piece kinds of each colour on 64 squares.
pub const INPUT_SIZE: usize = 768;

/// The width of the hidden layer.
pub const HIDDEN_SIZE: usize = 32768;

/// The number of outputs.
pub const OUTPUT_SIZE: usize = 1;

/// The quantisation factors of the hidden and output layers.
pub const QA: i32 = 255;

pub const QB: i32 = 64;

} // verus!
