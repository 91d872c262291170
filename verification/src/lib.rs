//! A small multi-tenant key-value store. A client obtains an opaque token and
//! then reads, writes and lists text values under that token; all tenants share
//! one embedded store, and the token in front of every stored key keeps them
//! apart.
//!
//! The operations are verified against a model of the store's contents, and the
//! laws that hold across them are proved in `laws`. The embedded engine, the
//! pattern matcher and the random source are called through a handful of
//! trusted functions whose contracts state what is believed of them.

pub mod history;
pub mod keys;
pub mod laws;
pub mod model;
pub mod registry;
pub mod stats;
pub mod store;
pub mod text;
pub mod values;

pub use keys::validate_key;
pub use registry::{lookup_token, presume_present, random_token, token_exist, write_token};
pub use stats::stats;
pub use store::Db;
pub use values::{get_value, list_keys, post_value};
