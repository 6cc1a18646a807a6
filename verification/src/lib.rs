//! Verified core of a GitHub-backed Kanban board: domain models, the
//! card-to-column mapping engine, board filters, PR ↔ issue linking,
//! GitHub response handling, OAuth helpers and the local cache model.
pub mod text;
pub mod labels;
pub mod str_map;
pub mod order;
pub mod stable_sort;
pub mod cardman;
pub mod kardhub;
