//! Harvests third-party dependencies declared in a project tree, normalises them
//! into `(ecosystem, name, version)` identities and reconciles them into a store
//! with an idempotent insert-or-touch protocol.
pub mod models;
pub mod collectors;
pub mod reconcile;
pub mod store;
