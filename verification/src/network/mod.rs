//! What travels over the overlay, and what the node makes of it.

pub mod config;
pub mod dedup;
pub mod digest;
pub mod node;
pub mod text;
pub mod types;
pub mod utils;
pub mod window;

pub use node::PeerNode;
pub use types::{Command, ManifestationResult, SignedManifestation};
