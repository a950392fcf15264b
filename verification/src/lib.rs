//! A finite-field transform engine for polynomial evaluation and
//! interpolation over power-of-two multiplicative subgroups, organised the
//! way a GPU backend runs it: compute stages are constructed once, encoded
//! as dispatch descriptors into a command sequence, and the whole sequence
//! is executed in encoding order against device buffers.

pub mod field;
pub mod stage;
pub mod command;
pub mod transform;
pub mod options;
pub mod utils;
