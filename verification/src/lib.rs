//! Path resolution for single-page applications served from an in-memory
//! asset store: request paths are normalized, mapped to asset keys below a
//! mount base, and looked up with an ordered fallback to index documents.

pub mod cleanup;
pub mod config;
pub mod error;
pub mod http;
pub mod mime;
pub mod path;
pub mod path_laws;
pub mod resolver;
pub mod resolver_laws;
pub mod store;
pub mod text;

pub use crate::config::SpaConfig;
pub use crate::error::SpaError;
