//! Turning OCI image layers into a runtime bundle: the decisions taken for each
//! tar entry, the digests of each layer, the identity behind a user string, and
//! the runtime configuration made from an image configuration.
pub mod path;
pub mod layer;
pub mod digest;
pub mod user;
pub mod config;
