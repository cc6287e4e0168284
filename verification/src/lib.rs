//! Block-level copying between sources and sinks, with the command-line,
//! wire-protocol and text rules around it.

pub mod cli;
pub mod environment;
pub mod io;
pub mod memory;
pub mod network;
pub mod text;
pub mod transfer;
pub mod vhdx;
pub mod wire;

pub use io::{BackendCapabilities, BlockSink, BlockSource};
