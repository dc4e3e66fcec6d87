//! A production-plan calculator for recipe catalogs.
//!
//! A catalog describes items, each with a recipe: how long one craft cycle
//! takes, how many units it yields, and how much of which other items it
//! consumes. Given such a catalog, a set of desired output rates, and a
//! description of the crafting facilities available, this crate computes a
//! fully expanded production plan: the throughput required of every item,
//! the number of facilities each item needs, and the load on every
//! dependency edge.
//!
//! All rates are exact rationals ([`rat::Ratio`]); every computation is
//! verified with Verus.

pub mod demand;
pub mod dot;
pub mod error;
pub mod graph;
pub mod module;
pub mod product;
pub mod rat;
pub mod resolve;
pub mod tech;
pub mod toposort;
pub mod text;

pub use error::Error;
pub use rat::Ratio;
