//! Webhook capture. A token names an inbox. Any HTTP request sent to the
//! address of a token is checked, normalised into a record, and stored; the
//! records of a token are read back newest first.
//!
//! - [`models`]: tokens, captured requests, headers by name.
//! - [`store`]: the two tables as mathematical values, what each operation
//!   does to them, and what holds of them at all times.
//! - [`database`]: the storage engine over those tables, held in memory, and
//!   rows as text.
//! - [`capture`]: the capture pipeline as a state machine without storage.
//! - [`handlers`]: the pipeline run against the storage engine.
//! - [`services`]: issuing tokens with their addresses, storing and reading
//!   records.
//! - [`config`], [`error`]: settings, and errors with what a caller is told.
//! - [`text`]: trimming, splitting and ordering of text.
//! - [`trusted`]: the calls into other crates, with contracts that are not
//!   proved.

pub mod capture;
pub mod config;
pub mod database;
pub mod error;
pub mod handlers;
pub mod models;
pub mod services;
pub mod store;
pub mod text;
pub mod trusted;
