//! What the operations are for: what holds of their results whatever they are given.
pub mod agents;
pub mod boards;
pub mod decisions;
pub mod discussions;
pub mod duties;
pub mod fetched;
pub mod hosts;
pub mod leading;
pub mod lists;
pub mod lookups;
pub mod machines;
pub mod measures;
pub mod outcomes;
pub mod pacing;
pub mod permissions;
pub mod pieces;
pub mod projects;
pub mod publishing;
pub mod records;
pub mod remarks;
pub mod settings;
pub mod setups;
pub mod texts;
pub mod theses;
pub mod work;
