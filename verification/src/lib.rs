//! Extraction of game-archive containers.
//!
//! A container is a file in one of two layouts: a flat one, which lists its
//! entries in one table, and a nested one, whose entries name the directory
//! they belong to. Payloads may be stored as they are or as zlib streams.
//!
//! The library works in memory. It takes the bytes of a container and fills
//! an [`output::Output`] with the files that the container holds, each under
//! a name that is safe to write and that no other file has, and with the
//! warnings for what it had to recover from:
//!
//! - [`archive`] tells the layouts apart, reads their tables and transfers
//!   the payloads;
//! - [`output`] is the tree of output names, and the files; [`paths`] shows
//!   that no two files get one path;
//! - [`names`] holds the rules for safe and for colliding names;
//! - [`decode`] decodes the names of entries, [`inflate`] their compressed payloads;
//! - [`wire`] reads bytes and little-endian integers, [`text`] handles characters;
//! - [`report`] holds the warnings and errors.

pub mod archive;
pub mod decode;
pub mod inflate;
pub mod names;
pub mod output;
pub mod paths;
pub mod report;
pub mod text;
pub mod wire;
