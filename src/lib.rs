//! Converts a brace-delimited markup notation into tag-based markup.
//!
//! The library holds the conversion engine as a verified state machine:
//! a scanner over a byte buffer, the dispatcher that rewrites each closed
//! element, and the plugin protocol. Spawning plugin processes and reading
//! included files is left to the caller, which answers the machine's actions.
use vstd::prelude::*;

pub mod bytes;
pub mod plugin;
pub mod config;
pub mod element;
pub mod convert;
pub mod laws;
pub mod wellformed;
