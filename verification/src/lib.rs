//! Tracks competitive-game player ratings over time: a merge policy that
//! appends rating observations when they change, and a refresh engine that
//! sweeps a keyed record store in paced pages, fetching live data for every
//! record and writing back only what changed.

pub mod engine;
pub mod merge;
pub mod model;
pub mod normalize;
pub mod source;
pub mod store;

pub use model::Bounds;
