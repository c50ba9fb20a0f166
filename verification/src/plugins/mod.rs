//! The smaller plugins' logic: drives fleet-wide, machines through
//! stormipmi, the fleet's nodes, block volumes and registry images.

pub mod drive;
pub mod ipmi;
pub mod fleet;
pub mod block;
pub mod catalog;
pub mod sbregistry;
