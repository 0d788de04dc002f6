//! The configuration model: what the TOML file describes, with each
//! field's default applied, and the construction of the unit table
//! from it.
//!
//! Reading and parsing the file itself happens outside the library;
//! the parsed values are handed in as these plain records.

pub mod application;

pub mod rpc_server;

pub mod process_probe;

pub mod probes;

pub mod unit;

pub mod configuration;
