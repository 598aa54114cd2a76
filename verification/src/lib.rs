//! A MySQL-compatible database server's core: wire protocol, authentication,
//! SQL parsing and execution, storage and its log, and the per-connection
//! state machine. Everything here is free of I/O; sockets, files, clocks and
//! threads are driven from outside.
#![allow(unused_imports)]
use vstd::prelude::*;

pub mod auth;
pub mod bytes;
pub mod config;
pub mod error;
pub mod numerals;
pub mod observability;
pub mod protocol;
pub mod query;
pub mod seqs;
pub mod server;
pub mod storage;
pub mod text;
pub mod text_laws;

pub use error::Error;

verus! {

} // verus!
