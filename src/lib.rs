//! Light-client verification side of the Ethash proof-of-work scheme:
//! per-epoch sizes and seeds, cache generation, and the hashimoto mixer,
//! each stated against a mathematical model and proved by Verus.

pub mod cache;
pub mod dag;
pub mod error;
pub mod hash;
pub mod mixer;
pub mod params;

pub use dag::{BlockNumber, EthereumPatch, LightDAG, Patch};
pub use error::EthashError;
