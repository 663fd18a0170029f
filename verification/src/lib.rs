//! The decisions of a language server multiplexer.
//!
//! Several editors share one language server process. This crate holds the
//! rules of that sharing as verified code: which clients get to see a message
//! of the server, when a file counts as open, which running instance serves a
//! new client, when an instance is idle for too long, and when a server that
//! was started on demand may exit. Sockets, processes and channels are the
//! business of the program around it: it performs what a function here
//! returns, and hands back what came of it.
pub mod capabilities;
pub mod client_data;
pub mod clock;
pub mod ext;
pub mod file_sync;
pub mod handshake;
mod hashing;
pub mod instance;
pub mod instance_key;
pub mod instance_map;
pub mod keyed;
pub mod lsp;
pub mod open_files;
mod printing;
pub mod operations;
pub mod router;
pub mod server;
pub mod socketwrapper;
pub mod spawn;
pub mod tasks;
pub mod text;
pub mod workspace;
