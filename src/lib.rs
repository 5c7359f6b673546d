//! Moving a file or a directory tree to a peer as one archive.
//!
//! `stream` copies bytes through a buffer of fixed size; `archive` builds an
//! archive container from a source tree, one directory listing at a time,
//! and opens a received one; `paths` maps source paths to archive paths;
//! `session` decides the phases of a send or a receive; `error` names every
//! failure; `clock` reads the time that names archive files.
pub mod archive;
pub mod clock;
pub mod error;
pub mod paths;
pub mod session;
pub mod stream;
