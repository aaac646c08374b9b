//! Supervision of development servers: a registry of running services,
//! the formatting and reading of their logs, and the decisions of the
//! supervision loop.
pub mod assoc;
pub mod registry;
pub mod output;
pub mod logstore;
pub mod supervisor;
pub mod text;
pub mod discovery;
pub mod config;
pub mod selection;
