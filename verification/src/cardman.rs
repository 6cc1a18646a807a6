//! The first-generation board: models and the card-to-column mapping engine.
pub mod models;
pub mod mapping;
pub mod cache;
pub mod markdown;
