//! Artifact cache pipeline: build-id derivation, cache and bucket
//! reconciliation plans, per-event plans and request routing.

pub mod text;
pub mod build_id;
pub mod checksum;
pub mod options;
pub mod s3;
pub mod remote;
pub mod cache;
pub mod watcher;
pub mod selfhosted;

pub use build_id::BuildEvent;
pub use options::{BackendCreationError, OptionParsingError};
pub use s3::S3;
pub use selfhosted::{Selfhosted, SelfhostedBackend};
