//! A generic rule-based grid transition engine: a toroidal two-dimensional
//! field of cell values, a neighborhood-shape abstraction mapping geometric
//! offsets to linear buffer slots, and an ordered, first-match-wins rule set
//! that advances the whole field one synchronous generation at a time.

pub mod color;
pub mod field;
pub mod life;
pub mod material;
pub mod pos;
pub mod rule;
pub mod shape;
