//! A trash can for the command line.
//!
//! The library holds what there is to decide when a file goes to the trash,
//! when the trash is listed and when it is emptied: which trash directory
//! takes a file, under which name, what its `.trashinfo` file says, and what
//! the cache of directory sizes holds afterwards. It moves and writes
//! nothing. The caller looks, moves and writes, and tells the library what it
//! found. Of the system the library itself asks two things only: the time,
//! for the deletion date, and the user's data directory, for the home trash.
//!
//! Names, paths and file contents are byte strings, as the system has them.

pub mod batch;
pub mod bytes;
pub mod copying;
pub mod decimal;
pub mod dirsizes;
pub mod empty;
pub mod engine;
pub mod errors;
pub mod layout;
pub mod lines;
pub mod listing;
pub mod macos;
pub mod naming;
pub mod paths;
pub mod percent;
pub mod resolver;
pub mod trashinfo;
pub mod tree;
