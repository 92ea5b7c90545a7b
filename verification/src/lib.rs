//! A versioned document registry: create, update, soft-delete, restore,
//! search and fetch records, each update preserving a full edit history.
//!
//! The behavioural core lives in [`service`]; durable storage is an ordered
//! map of an outside crate held behind a small trusted boundary in
//! [`storage`], and records are framed as bytes by the verified codec in
//! [`codec`].

pub mod types;
pub mod validate;
pub mod codec;
pub mod storage;
pub mod issuer;
pub mod text;
pub mod service;
