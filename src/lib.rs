//! A mirrored virtual block device ("nexus") engine: children, online
//! rebuild jobs, the nexus itself and a registry of live instances driven
//! through a small command surface.

pub mod error;
pub mod naming;
pub mod child;
pub mod rebuild;
pub mod nexus;
pub mod registry;
