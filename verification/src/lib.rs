//! Sans-I/O core of a command-line client that mirrors a local directory tree
//! into a remote hierarchical object store.
//!
//! Nothing in this crate touches the network, the file system or the terminal.
//! Every operation that needs the outside world is a state machine: it hands out
//! the request to perform and is advanced with the reply.

pub mod delegate;
pub mod error;
pub mod media_type;
pub mod overwrite;
pub mod path;
pub mod remote;
pub mod resolve;
pub mod text;
pub mod transfer;
pub mod tree;
pub mod upload;
pub mod wildcard;
