//! Relocating playlist references onto locally present music files.
//!
//! A scan of the music root (done by the caller) yields plain file paths;
//! `index` groups the music files by stem and collects the playlist
//! files.  `extractor` turns playlist text into an ordered list of
//! references; `matcher` resolves each reference to the best same-stem
//! local candidate by path-suffix similarity with an extension tie-break;
//! `assembler` gathers the resolved paths, in order, into a `Playlist`,
//! which `playlist` renders in the plain or extended format.

pub mod strutil;
pub mod paths;
pub mod index;
pub mod matcher;
pub mod extractor;
pub mod assembler;
pub mod playlist;
pub mod metadata;
