//! An interpreter for a minimal eight-instruction tape language.
//!
//! The crate splits into two halves: `bft_types` parses source text into a
//! jump-resolved instruction sequence, and `bft_interp` executes that
//! sequence on a virtual machine with a growable or fixed tape of cells.

pub mod bft_interp;
pub mod bft_types;
