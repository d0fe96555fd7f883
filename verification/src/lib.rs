//! A verified schema-and-seed bootstrapper for a small inventory-and-sales
//! application.
//!
//! The library models the application's local relational store — the three
//! declared tables (`inventory`, `sales`, `users`), their UNIQUE constraints,
//! and the bootstrapper's ledger of applied migration versions — and proves
//! that reconciling the store against a declared migration set is idempotent,
//! applies migrations in ascending version order, records a version only when
//! its whole script succeeded, and never overwrites an existing admin account.
//!
//! Opening the database file and hosting the surrounding application shell are
//! the caller's business; the library works on the store's contents alone.

pub mod store;

pub mod migration;

pub mod reconcile;

pub mod schema;

pub mod laws;
