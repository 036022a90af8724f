//! An interactive catalog of locally installed packages: parses the
//! package manager's line-oriented output into typed records, merges the
//! overlapping query results into one deduplicated, classified, sorted
//! catalog, and maintains a filterable, navigable view over it.

pub mod app;
pub mod commands;
pub mod config;
pub mod laws;
pub mod strutil;

