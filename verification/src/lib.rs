//! A verified core for a model-train catalog: records, previews, and a
//! resource manager that keeps an in-memory cache and a sorted preview list
//! consistent with a persistent store reached through the `Backend` trait.

pub mod backend;
pub mod lok;
pub mod preview_lok;
pub mod resource_manager;
pub mod state;
pub mod text;
