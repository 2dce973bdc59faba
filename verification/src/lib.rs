//! Core of a small desktop companion.
//!
//! - [`tree`], [`builder`], [`walk`], [`hidden`]: an index of file names,
//!   built by a resumable depth-first walk that leaves hidden paths out.
//! - [`search`], [`text`]: case-insensitive substring search over the index,
//!   pruned by the tokens that each directory carries.
//! - [`store`]: the cell that holds the installed index.
//! - [`timer`]: a countdown.
//! - [`relay`]: request shaping for the music-service relay.
//!
//! The library does no input or output of its own: directories are read,
//! requests are sent and threads are started by the caller.

pub mod builder;
pub mod hidden;
pub mod relay;
pub mod search;
pub mod store;
pub mod text;
pub mod timer;
pub mod tree;
pub mod walk;
