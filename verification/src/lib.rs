//! Indexing and caching core of a terminal music player: track records, the
//! cache codec, the collision resolver, the album index and the rescan state.

pub mod cache;
pub mod client;
pub mod date;
pub mod dotfile;
pub mod error;
pub mod hash;
pub mod index;
pub mod keys;
pub mod library;
pub mod order;
pub mod record;
pub mod rescan;
pub mod text;
pub mod track;
pub mod util;
