//! Per-account experience within skill categories, converted into a bounded
//! progression level, and a registry that records each approver/worker
//! interaction exactly once.

pub mod types;
pub mod leveling;
pub mod storage;
pub mod pallet;
pub mod laws;

pub use pallet::Pallet;
pub use types::{Config, Error, ExperienceType, InteractionIdentifier, UserExperience};
