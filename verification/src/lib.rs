//! A template manager's core logic: path normalization, template-store
//! planning, and the registry rules, all stated over segment sequences.

pub mod fsmodel;
pub mod normalize;
pub mod path;
pub mod plan;
pub mod registry;

pub use path::SegPath;
