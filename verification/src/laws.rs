//! What the library promises, from its inputs to its results.
//!
//! Each law starts from what a function of the library guarantees and ends in terms that stand by
//! themselves: the figures that went in, the text that came out, and the sorting of a sequence.
pub mod charts;
pub mod files;
pub mod invocation;
pub mod measurement;
pub mod reports;
pub mod scaling;
pub mod selection;
pub mod text;
