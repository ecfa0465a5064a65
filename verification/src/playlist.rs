//! Playlist values and their textual renderings.
//!
//! The plain format holds one resolved path per line, newline-terminated,
//! with no header.  The extended format opens with a header line and, per
//! song, a directive line carrying the duration in seconds and
//! "artist - title", then the path line.

use vstd::prelude::*;
use vstd::string::*;

use crate::metadata::{SongMetadata, SongMetadataView};
use crate::strutil::{dec_str, str_eq, u64_to_string};

verus! {

/// The plain rendering: each song path followed by a newline.
pub open spec fn m3u_text(songs: Seq<Seq<char>>) -> Seq<char>
    decreases songs.len(),
{
    if songs.len() == 0 {
        Seq::<char>::empty()
    } else {
        m3u_text(songs.drop_last()) + songs.last() + seq!['\n']
    }
}

/// One extended-format entry: the directive line with the song's duration
/// and "artist - title", then the song's path line.
pub open spec fn extinf_entry(song: Seq<char>, m: SongMetadataView) -> Seq<char> {
    "\n#EXTINF:"@ + dec_str(m.duration as nat) + ","@ + m.artist + " - "@ + m.title + "\n"@ + song
}

/// The concatenated extended-format entries of the songs, in order.
pub open spec fn extm3u_entries(songs: Seq<Seq<char>>, metas: Seq<SongMetadataView>) -> Seq<char>
    decreases songs.len(),
{
    if songs.len() == 0 {
        Seq::<char>::empty()
    } else {
        extm3u_entries(songs.drop_last(), metas.drop_last()) + extinf_entry(
            songs.last(),
            metas.last(),
        )
    }
}

/// The extended rendering: the header line, then one entry per song.
pub open spec fn extm3u_text(songs: Seq<Seq<char>>, metas: Seq<SongMetadataView>) -> Seq<char> {
    "#EXTM3U"@ + extm3u_entries(songs, metas)
}

/// A named, ordered collection of resolved song paths.
#[derive(Debug)]
pub struct Playlist {
    pub name: String,
    pub songs: Vec<String>,
}

/// The wanted output format.
#[derive(Clone, Copy, Debug, PartialEq, Eq, Structural)]
pub enum PlaylistFormat {
    M3u,
    Extm3u,
}

impl Default for PlaylistFormat {
    fn default() -> (r: PlaylistFormat)
        ensures
            r == PlaylistFormat::M3u,
    {
        PlaylistFormat::M3u
    }
}

impl PlaylistFormat {
    /// Parses a format name: exactly "m3u" or "extm3u" is accepted.
    pub fn from_str(s: &str) -> (r: Result<PlaylistFormat, &'static str>)
        ensures
            s@ == "m3u"@ ==> r == Ok::<PlaylistFormat, &'static str>(PlaylistFormat::M3u),
            s@ == "extm3u"@ ==> r == Ok::<PlaylistFormat, &'static str>(PlaylistFormat::Extm3u),
            s@ != "m3u"@ && s@ != "extm3u"@ ==> r == Err::<PlaylistFormat, &'static str>(
                "Unknown playlist format",
            ),
    {
        proof {
            reveal_strlit("m3u");
            reveal_strlit("extm3u");
            assert("m3u"@.len() == 3);
            assert("extm3u"@.len() == 6);
            assert("m3u"@ != "extm3u"@);
        }
        if str_eq(s, "m3u") {
            Ok(PlaylistFormat::M3u)
        } else if str_eq(s, "extm3u") {
            Ok(PlaylistFormat::Extm3u)
        } else {
            Err("Unknown playlist format")
        }
    }
}

impl Playlist {
    pub fn new(name: String, songs: Vec<String>) -> (r: Playlist)
        ensures
            r.name == name,
            r.songs == songs,
    {
        Playlist { name, songs }
    }

    /// Renders the plain format: one song path per line.
    pub fn to_m3u(&self) -> (r: String)
        ensures
            r@ == m3u_text(self.songs.deep_view()),
    {
        let ghost sd = self.songs.deep_view();
        let mut content = String::new();
        let n = self.songs.len();
        let mut i: usize = 0;
        while i < n
            invariant
                n == self.songs@.len(),
                sd == self.songs.deep_view(),
                i <= n,
                content@ == m3u_text(sd.take(i as int)),
            decreases n - i,
        {
            proof {
                assert(sd.take(i as int + 1).drop_last() =~= sd.take(i as int));
                assert(sd.take(i as int + 1).last() == sd[i as int]);
                assert(sd[i as int] == self.songs@[i as int]@);
            }
            let ghost content_pre = content@;
            content.append(self.songs[i].as_str());
            content.append("\n");
            proof {
                reveal_strlit("\n");
                assert("\n"@ =~= seq!['\n']);
                assert(content@ == content_pre + sd[i as int] + seq!['\n']);
            }
            i += 1;
        }
        proof {
            assert(sd.take(n as int) =~= sd);
        }
        content
    }

    /// Renders the extended format; `meta` pairs with the songs by
    /// position.
    pub fn to_extm3u(&self, meta: &Vec<SongMetadata>) -> (r: String)
        requires
            meta@.len() == self.songs@.len(),
        ensures
            r@ == extm3u_text(self.songs.deep_view(), meta.deep_view()),
    {
        let ghost sd = self.songs.deep_view();
        let ghost md = meta.deep_view();
        let mut content = String::from_str("#EXTM3U");
        let n = self.songs.len();
        let mut i: usize = 0;
        while i < n
            invariant
                n == self.songs@.len(),
                n == meta@.len(),
                sd == self.songs.deep_view(),
                md == meta.deep_view(),
                i <= n,
                content@ == "#EXTM3U"@ + extm3u_entries(sd.take(i as int), md.take(i as int)),
            decreases n - i,
        {
            proof {
                assert(sd.take(i as int + 1).drop_last() =~= sd.take(i as int));
                assert(md.take(i as int + 1).drop_last() =~= md.take(i as int));
                assert(sd.take(i as int + 1).last() == sd[i as int]);
                assert(md.take(i as int + 1).last() == md[i as int]);
                assert(sd[i as int] == self.songs@[i as int]@);
                assert(md[i as int] == meta@[i as int]@);
            }
            let ghost content_pre = content@;
            content.append("\n#EXTINF:");
            let dur = u64_to_string(meta[i].duration);
            content.append(dur.as_str());
            content.append(",");
            content.append(meta[i].artist.as_str());
            content.append(" - ");
            content.append(meta[i].title.as_str());
            content.append("\n");
            content.append(self.songs[i].as_str());
            proof {
                assert(content@ =~= content_pre + extinf_entry(sd[i as int], md[i as int]));
                assert(extm3u_entries(sd.take(i as int + 1), md.take(i as int + 1))
                    == extm3u_entries(sd.take(i as int), md.take(i as int)) + extinf_entry(
                    sd[i as int],
                    md[i as int],
                ));
                assert(content@ =~= "#EXTM3U"@ + extm3u_entries(
                    sd.take(i as int + 1),
                    md.take(i as int + 1),
                ));
            }
            i += 1;
        }
        proof {
            assert(sd.take(n as int) =~= sd);
            assert(md.take(n as int) =~= md);
        }
        content
    }

    /// Renders the playlist in the chosen format.
    pub fn render(&self, format: PlaylistFormat, meta: &Vec<SongMetadata>) -> (r: String)
        requires
            format == PlaylistFormat::Extm3u ==> meta@.len() == self.songs@.len(),
        ensures
            r@ == match format {
                PlaylistFormat::M3u => m3u_text(self.songs.deep_view()),
                PlaylistFormat::Extm3u => extm3u_text(self.songs.deep_view(), meta.deep_view()),
            },
    {
        match format {
            PlaylistFormat::M3u => self.to_m3u(),
            PlaylistFormat::Extm3u => self.to_extm3u(meta),
        }
    }
}

} // verus!
