//! An HTTP to HTTPS bridge proxy: the rules by which requests, headers, addresses, configuration
//! and the life of the daemon are decided. Sockets, files and signals are the program's own.

pub mod bridge;
pub mod config;
pub mod daemon;
pub mod error;
pub mod filter;
pub mod forwarding;
pub mod headers;
pub mod logging;
pub mod net;
pub mod proxy;
pub mod text;
pub mod uri;
