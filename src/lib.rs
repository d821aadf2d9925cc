// The control layer of a desktop wallet that supervises a local full node: it
// locates the node's executables, reads and rewrites its configuration, builds and
// reads the runs of its command-line client, assembles the dashboard, and keeps the
// console's shell session. Everything here is verified; the I/O lives with the
// caller.

pub mod cli;
pub mod clock;
pub mod config;
pub mod dashboard;
pub mod error;
pub mod locator;
pub mod models;
pub mod shell;
pub mod text;
pub mod utils;
