//! A binary XOR-accumulating sketch: a fixed-size bit array summarizing a
//! multiset of items, with in-place combination into an approximate symmetric
//! difference and an iterative peeling decoder that recovers its members.

pub mod errors;
pub mod item;
pub mod laws;
pub mod peel;
pub mod sketch;

pub use errors::BinaryCountSketchError;
pub use item::Item;
pub use item::TestItem;
pub use peel::peel_decode;
pub use sketch::BinaryCountSketch;
