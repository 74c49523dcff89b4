//! A verified model of generic atomic memory access over plain-data values.
//!
//! A value is identified purely by its bit pattern, held as a little-endian
//! byte vector.  For a layout whose size is a native atomic width (1, 2, 4 or
//! 8 bytes) and whose alignment is at least that size, every operation is
//! dispatched through a bit-preserving bridge to a fixed-width unsigned word,
//! performed on the word, and bridged back.  Every other layout is routed to a
//! byte-level fallback that implements the identical operation set directly on
//! the byte representation, so callers observe the same contract on both
//! paths.

pub mod bridge;
pub mod cell;
pub mod classify;
pub mod fallback;
pub mod laws;
pub mod order;
pub mod words;
