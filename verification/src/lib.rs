//! A TCP connect scanner's core: port specifications, target resolution, the job
//! matrix, the admission-controlled scan engine and the result reporter.
//!
//! No connection is made and no name is looked up here: that is the caller's
//! work, and the outcomes come in as plain values.
pub mod address_laws;
pub mod addresses;
pub mod cli;
pub mod ip;
pub mod matrix;
pub mod plan;
pub mod port_laws;
pub mod ports;
pub mod report;
pub mod scanner;
pub mod scanner_laws;
pub mod text;
pub mod utils;
