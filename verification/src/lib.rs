//! A toolkit for the life of a database schema. It keeps track of which
//! schema statements were applied, brings a database in line with a schema
//! directory, and runs declarative test suites against it.
//!
//! Everything here decides and computes; nothing here touches a file, a
//! database or the network. Where work of that kind lies between two
//! decisions, a function says what is to be done next and another one takes
//! what came of it.
//!
//! - [`statements`], [`catalog`], [`schema_state`]: schema text, the entities
//!   it defines, snapshots and the differences between them.
//! - [`migration`], [`sync`]: the migration ledger and the sync pass.
//! - [`tester`]: the test format, filters, actors, cases, assertions, reports.
//! - [`text`], [`order`], [`json`], [`paths`], [`digest`], [`pattern`]: the
//!   models that the contracts speak in.

pub mod catalog;
pub mod config;
pub mod db_capabilities;
pub mod digest;
pub mod error;
pub mod json;
pub mod migration;
pub mod order;
pub mod paths;
pub mod pattern;
pub mod scaffold;
pub mod schema_state;
pub mod statements;
pub mod status;
pub mod sync;
pub mod tester;
pub mod text;
