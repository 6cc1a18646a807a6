//! The board library: models, linking, filtering, GitHub client logic,
//! OAuth helpers and the local cache.
pub mod models;
pub mod linking;
pub mod filtering;
pub mod github;
pub mod auth;
pub mod cache;
pub mod session;
pub mod board;
pub mod extension;
pub mod detail;
