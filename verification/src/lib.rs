//! Resolution of numeric jump targets into symbolic labels.
//!
//! A program is a text of lines. A line that the jump pattern matches names
//! a target line by its number; the transform gives every distinct target a
//! label, declares the label in front of the line it stands for, and makes
//! each jump address the label instead of the number.

pub mod text;
pub mod arguments;
pub mod pattern;
pub mod labels;
pub mod rewrite;
pub mod resolve;
pub mod laws;
