//! Per-song tag metadata, supplied by the tag-reading collaborator.

use vstd::prelude::*;

verus! {

/// Spec-level value of a song's tag metadata.
pub ghost struct SongMetadataView {
    pub title: Seq<char>,
    pub artist: Seq<char>,
    pub duration: u64,
}

/// Title, artist and duration (in seconds) of a song, as read from its
/// tags; empty strings and zero whenever a field is unavailable.
#[derive(Debug)]
pub struct SongMetadata {
    pub title: String,
    pub artist: String,
    pub duration: u64,
}

impl View for SongMetadata {
    type V = SongMetadataView;

    open spec fn view(&self) -> SongMetadataView {
        SongMetadataView { title: self.title@, artist: self.artist@, duration: self.duration }
    }
}

impl DeepView for SongMetadata {
    type V = SongMetadataView;

    open spec fn deep_view(&self) -> SongMetadataView {
        self.view()
    }
}

impl SongMetadata {
    pub fn new(title: String, artist: String, duration: u64) -> (r: SongMetadata)
        ensures
            r.title == title,
            r.artist == artist,
            r.duration == duration,
    {
        SongMetadata { title, artist, duration }
    }
}

impl Default for SongMetadata {
    /// The metadata used when no tag can be read.
    fn default() -> (r: SongMetadata)
        ensures
            r.title@ == Seq::<char>::empty(),
            r.artist@ == Seq::<char>::empty(),
            r.duration == 0,
    {
        SongMetadata { title: String::new(), artist: String::new(), duration: 0 }
    }
}

} // verus!
