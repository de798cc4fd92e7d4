//! Verified core of a minimal reverse proxy.
//!
//! - [`config`] reads the configuration language into server entries.
//! - [`layout`] says how well-formed configurations are written and proves
//!   that these are the texts that are read through.
//! - [`routing`] builds the table from server names to entries.
//! - [`dispatch`] decides what becomes of a request.
//! - [`scan`] and [`chars`] hold the scanner and its character classes.
//!
//! Nothing here reads a file or talks to a network: a program hands in
//! texts and requests as plain values and carries out what is decided.

pub mod chars;
pub mod config;
pub mod dispatch;
pub mod layout;
pub mod routing;
pub mod scan;
