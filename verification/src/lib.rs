//! A node stream turns one connection multiplexer into a source of substream
//! events: substreams that the remote opened, and substreams that the local
//! side asked for. It keeps the outbound attempts that are still open, and it
//! separates giving up local attempts from closing the connection.
//!
//! `muxing` holds the multiplexer that the node stream consumes, `node` the
//! node stream and its close operation, `journal` the record of the calls
//! made on the multiplexer, in whose terms the contracts are stated, and
//! `laws` and `progress` what follows from the contracts over runs of
//! operations.

pub mod journal;
pub mod laws;
pub mod muxing;
pub mod node;
pub mod progress;
pub mod std_types;
