//! Configuration resolution and cache identity for a cross-compiling build driver.
//!
//! The crate answers two questions: which compiler flags apply to a target,
//! and which inputs make up the identity of a cached sysroot. It reads no
//! file and no environment itself: its callers hand it what they have read.

pub mod config;
pub mod digest;
pub mod error;
pub mod flags;
pub mod root;
pub mod subcommand;
pub mod text;
pub mod value;

pub use config::{config, manifest, Config, Profile, Toml};
pub use error::{Error, Shape};
pub use flags::{flags, flags_named, rustdocflags, rustflags, Rustdocflags, Rustflags, Source};
pub use root::{candidates, choose_start, root, search_start, Root, XargoMode};
pub use subcommand::Subcommand;
pub use value::ConfigTree;
