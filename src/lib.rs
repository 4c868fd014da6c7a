//! Resolves a secret collection from a remote secret store into shell
//! `export` statements.
//!
//! The library holds the logic of one run: the configuration model, the
//! unwrapping of the store's versioned key/value envelope, the projection of
//! secrets onto export rules, the shell quoting of values and the state
//! machine that sequences authentication, reading and projection.

pub mod conf;
pub mod export;
pub mod laws;
pub mod quote;
pub mod run;
pub mod secrets;

pub use conf::{Config, Vault, Var};
pub use export::{project, ExportLine};
pub use quote::quote_value;
pub use run::{exit_code, step, Action, Event, FailedStep, Stage};
pub use secrets::{secret_collection, Document, SecretValue};
