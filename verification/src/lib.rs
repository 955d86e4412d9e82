//! Audit-log entries for a multi-tenant platform: the action registry, the
//! field projection, the write-once discipline of an entry, and the two ways
//! of paging through an owner's entries.
//!
//! The library decides and computes; it never talks to a database itself.
//! Every operation on the row store is a [`statement::Statement`], and
//! [`store::MemoryStore`] gives each statement its meaning.

pub mod action;
pub mod api;
pub mod columns;
pub mod entries;
pub mod error;
pub mod id;
pub mod laws;
pub mod log;
pub mod statement;
pub mod store;
pub mod text;
