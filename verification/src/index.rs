//! The local file index: music files discovered under the music root,
//! grouped by file stem, plus the list of discovered playlist files.
//!
//! Grouping preserves discovery order inside each stem's candidate list;
//! resolution's tie-breaking depends on that order being stable.

use vstd::prelude::*;
use vstd::string::*;

use crate::paths::{has_file_name, path_extension, path_stem, path_segments, split_file_name};
use crate::strutil::str_eq;

verus! {

/// Classification of a file by its raw extension string, matched
/// case-sensitively against the two fixed allow-lists.
#[derive(Clone, Copy, Debug, PartialEq, Eq, Structural)]
pub enum Extension {
    Music,
    Playlist,
    Unknown,
}

/// The music allow-list: aac, flac, m4a, m4b, mp3, ogg, opus.
pub open spec fn is_music_ext(e: Seq<char>) -> bool {
    ||| e == "aac"@
    ||| e == "flac"@
    ||| e == "m4a"@
    ||| e == "m4b"@
    ||| e == "mp3"@
    ||| e == "ogg"@
    ||| e == "opus"@
}

/// The playlist allow-list: m3u.
pub open spec fn is_playlist_ext(e: Seq<char>) -> bool {
    e == "m3u"@
}

pub open spec fn extension_kind(e: Seq<char>) -> Extension {
    if is_music_ext(e) {
        Extension::Music
    } else if is_playlist_ext(e) {
        Extension::Playlist
    } else {
        Extension::Unknown
    }
}

/// A path that names a music file: it has an extension on the allow-list.
pub open spec fn is_music_path(p: Seq<char>) -> bool {
    match path_extension(p) {
        Some(e) => extension_kind(e) == Extension::Music,
        None => false,
    }
}

/// A path that names a playlist file.
pub open spec fn is_playlist_path(p: Seq<char>) -> bool {
    match path_extension(p) {
        Some(e) => extension_kind(e) == Extension::Playlist,
        None => false,
    }
}

/// The music files among `files` whose stem is `s`, in input order.
pub open spec fn music_with_stem(files: Seq<Seq<char>>, s: Seq<char>) -> Seq<Seq<char>>
    decreases files.len(),
{
    if files.len() == 0 {
        Seq::<Seq<char>>::empty()
    } else {
        let rest = music_with_stem(files.drop_last(), s);
        if is_music_path(files.last()) && path_stem(files.last()) == Some(s) {
            rest.push(files.last())
        } else {
            rest
        }
    }
}

/// The playlist files among `files`, in input order.
pub open spec fn playlist_paths_of(files: Seq<Seq<char>>) -> Seq<Seq<char>>
    decreases files.len(),
{
    if files.len() == 0 {
        Seq::<Seq<char>>::empty()
    } else {
        let rest = playlist_paths_of(files.drop_last());
        if is_playlist_path(files.last()) {
            rest.push(files.last())
        } else {
            rest
        }
    }
}

impl Extension {
    pub fn of(s: &str) -> (r: Extension)
        ensures
            r == extension_kind(s@),
    {
        if str_eq(s, "aac") || str_eq(s, "flac") || str_eq(s, "m4a") || str_eq(s, "m4b") || str_eq(
            s,
            "mp3",
        ) || str_eq(s, "ogg") || str_eq(s, "opus") {
            Extension::Music
        } else if str_eq(s, "m3u") {
            Extension::Playlist
        } else {
            Extension::Unknown
        }
    }
}

/// One stem's candidate list, in discovery order.
pub struct IndexEntry {
    pub stem: String,
    pub paths: Vec<String>,
}

/// The index: a mapping from stem to the local music files sharing it.
pub struct LocalIndex {
    pub entries: Vec<IndexEntry>,
}

/// Position of the first entry whose stem is `stem`, or -1.
pub open spec fn find_in(entries: Seq<IndexEntry>, stem: Seq<char>) -> int
    decreases entries.len(),
{
    if entries.len() == 0 {
        -1
    } else if entries[0].stem@ == stem {
        0
    } else {
        let r = find_in(entries.drop_first(), stem);
        if r < 0 {
            -1
        } else {
            r + 1
        }
    }
}

pub proof fn lemma_find_in_props(entries: Seq<IndexEntry>, stem: Seq<char>)
    ensures
        find_in(entries, stem) >= 0 ==> find_in(entries, stem) < entries.len() && entries[find_in(
            entries,
            stem,
        )].stem@ == stem,
        find_in(entries, stem) >= 0 ==> forall|k: int|
            0 <= k < find_in(entries, stem) ==> entries[k].stem@ != stem,
        find_in(entries, stem) < 0 ==> forall|k: int|
            0 <= k < entries.len() ==> entries[k].stem@ != stem,
    decreases entries.len(),
{
    if entries.len() > 0 && entries[0].stem@ != stem {
        lemma_find_in_props(entries.drop_first(), stem);
        assert(forall|k: int|
            1 <= k < entries.len() ==> entries[k] == entries.drop_first()[k - 1]);
    }
}

/// `find_in` reads only the stems.
proof fn lemma_find_in_stems_equal(e1: Seq<IndexEntry>, e2: Seq<IndexEntry>, stem: Seq<char>)
    requires
        e1.len() == e2.len(),
        forall|k: int| 0 <= k < e1.len() ==> e1[k].stem@ == e2[k].stem@,
    ensures
        find_in(e1, stem) == find_in(e2, stem),
    decreases e1.len(),
{
    if e1.len() > 0 {
        assert(forall|k: int|
            0 <= k < e1.len() - 1 ==> e1.drop_first()[k] == e1[k + 1] && e2.drop_first()[k] == e2[k
                + 1]);
        lemma_find_in_stems_equal(e1.drop_first(), e2.drop_first(), stem);
    }
}

proof fn lemma_find_in_push(entries: Seq<IndexEntry>, e: IndexEntry, stem: Seq<char>)
    ensures
        find_in(entries.push(e), stem) == if find_in(entries, stem) >= 0 {
            find_in(entries, stem)
        } else if e.stem@ == stem {
            entries.len() as int
        } else {
            -1
        },
    decreases entries.len(),
{
    if entries.len() == 0 {
        assert(entries.push(e)[0] == e);
        assert(entries.push(e).drop_first() =~= Seq::<IndexEntry>::empty());
        assert(find_in(Seq::<IndexEntry>::empty(), stem) == -1);
    } else {
        assert(entries.push(e)[0] == entries[0]);
        assert(entries.push(e).drop_first() =~= entries.drop_first().push(e));
        lemma_find_in_push(entries.drop_first(), e, stem);
    }
}

impl LocalIndex {
    /// Position of the entry for `stem`, or -1 when no entry has it.
    pub open spec fn find_entry(self, stem: Seq<char>) -> int {
        find_in(self.entries@, stem)
    }

    pub open spec fn contains_stem(self, stem: Seq<char>) -> bool {
        self.find_entry(stem) >= 0
    }

    /// The candidate list recorded for `stem`; empty when no entry has it.
    pub open spec fn candidates_of(self, stem: Seq<char>) -> Seq<Seq<char>> {
        if self.contains_stem(stem) {
            self.entries@[self.find_entry(stem)].paths.deep_view()
        } else {
            Seq::<Seq<char>>::empty()
        }
    }

    /// Well-formedness: stems are unique, every entry is nonempty, and every
    /// recorded path's stem is its entry's stem.
    pub open spec fn wf(self) -> bool {
        &&& forall|i: int, j: int|
            0 <= i < j < self.entries@.len() ==> self.entries@[i].stem@ != self.entries@[j].stem@
        &&& forall|i: int, k: int|
            0 <= i < self.entries@.len() && 0 <= k < self.entries@[i].paths@.len() ==> path_stem(
                self.entries@[i].paths@[k]@,
            ) == Some(self.entries@[i].stem@)
        &&& forall|i: int| 0 <= i < self.entries@.len() ==> self.entries@[i].paths@.len() > 0
    }

    /// Finds the entry holding `stem`'s candidates.
    pub fn lookup(&self, stem: &str) -> (r: Option<usize>)
        ensures
            match r {
                Some(j) => j == self.find_entry(stem@) && j < self.entries@.len()
                    && self.entries@[j as int].stem@ == stem@,
                None => !self.contains_stem(stem@),
            },
    {
        let n = self.entries.len();
        let mut j: usize = 0;
        while j < n
            invariant
                n == self.entries@.len(),
                j <= n,
                forall|k: int| 0 <= k < j ==> self.entries@[k].stem@ != stem@,
            decreases n - j,
        {
            if str_eq(self.entries[j].stem.as_str(), stem) {
                proof {
                    lemma_find_in_props(self.entries@, stem@);
                    let fi = find_in(self.entries@, stem@);
                    if fi < 0 {
                        assert(self.entries@[j as int].stem@ != stem@);
                    }
                    if fi < j {
                        assert(self.entries@[fi].stem@ != stem@);
                    }
                    if fi > j {
                        assert(self.entries@[j as int].stem@ != stem@);
                    }
                }
                return Some(j);
            }
            j += 1;
        }
        proof {
            lemma_find_in_props(self.entries@, stem@);
            if find_in(self.entries@, stem@) >= 0 {
                assert(self.entries@[find_in(self.entries@, stem@)].stem@ != stem@);
            }
        }
        None
    }
}

/// Builds the local index and the playlist list from the discovered files.
///
/// Music files are grouped by stem, keeping discovery order inside each
/// group; playlist files are collected in discovery order; everything else
/// is ignored.
pub fn index(files: &Vec<String>) -> (r: (LocalIndex, Vec<String>))
    ensures
        r.0.wf(),
        forall|s: Seq<char>|
            #[trigger] r.0.candidates_of(s) == music_with_stem(files.deep_view(), s),
        r.1.deep_view() == playlist_paths_of(files.deep_view()),
{
    let mut idx = LocalIndex { entries: Vec::new() };
    let mut playlists: Vec<String> = Vec::new();
    let n = files.len();
    let mut i: usize = 0;
    while i < n
        invariant
            n == files@.len(),
            i <= n,
            idx.wf(),
            forall|s: Seq<char>|
                #[trigger] idx.candidates_of(s) == music_with_stem(
                    files.deep_view().take(i as int),
                    s,
                ),
            playlists.deep_view() == playlist_paths_of(files.deep_view().take(i as int)),
        decreases n - i,
    {
        let ghost pre = files.deep_view().take(i as int);
        let ghost post = files.deep_view().take(i as int + 1);
        let ghost fv = files@[i as int]@;
        let ghost old_idx = idx;
        let ghost old_pl_deep = playlists.deep_view();
        proof {
            assert(post.drop_last() =~= pre);
            assert(post.last() == fv);
        }
        let f = &files[i];
        let segs = path_segments(f.as_str());
        if segs.len() > 0 {
            let name_idx = segs.len() - 1;
            proof {
                assert(segs.deep_view()[name_idx as int] == segs@[name_idx as int]@);
                assert(segs@[name_idx as int]@ == crate::paths::file_name_of(fv));
            }
            let (stem, ext_opt) = split_file_name(segs[name_idx].as_str());
            match ext_opt {
                Some(ext) => {
                    proof {
                        assert(path_extension(fv) == Some(ext@));
                        assert(path_stem(fv) == Some(stem@));
                    }
                    match Extension::of(ext.as_str()) {
                        Extension::Music => {
                            let ghost stemv = stem@;
                            let jopt = idx.lookup(stem.as_str());
                            match jopt {
                                Some(j) => {
                                    let ghost old_entries = idx.entries@;
                                    let fc = f.clone();
                                    let ghost fcg = fc;
                                    let entry = &mut idx.entries[j];
                                    entry.paths.push(fc);
                                    proof {
                                        let new_entries = idx.entries@;
                                        assert(new_entries == old_entries.update(
                                            j as int,
                                            new_entries[j as int],
                                        ));
                                        assert(new_entries[j as int].stem@ == stemv);
                                        assert(new_entries[j as int].paths@
                                            == old_entries[j as int].paths@.push(fcg));
                                        assert forall|i2: int|
                                            0 <= i2 < new_entries.len() implies new_entries[i2].stem@
                                            == old_entries[i2].stem@ by {}
                                        assert(idx.wf()) by {
                                            assert forall|i2: int, k: int|
                                                0 <= i2 < new_entries.len() && 0 <= k
                                                    < new_entries[i2].paths@.len() implies path_stem(
                                                new_entries[i2].paths@[k]@,
                                            ) == Some(new_entries[i2].stem@) by {
                                                if i2 == j as int {
                                                    if k < old_entries[i2].paths@.len() {
                                                        assert(new_entries[i2].paths@[k]
                                                            == old_entries[i2].paths@[k]);
                                                    } else {
                                                        assert(new_entries[i2].paths@[k] == fc);
                                                    }
                                                } else {
                                                    assert(new_entries[i2] == old_entries[i2]);
                                                }
                                            }
                                        }
                                        assert forall|s: Seq<char>|
                                            #[trigger] idx.candidates_of(s) == music_with_stem(
                                                post,
                                                s,
                                            ) by {
                                            lemma_find_in_stems_equal(old_entries, new_entries, s);
                                            lemma_find_in_props(old_entries, s);
                                            assert(old_idx.candidates_of(s) == music_with_stem(
                                                pre,
                                                s,
                                            ));
                                            if s == stemv {
                                                assert(find_in(old_entries, s) == j as int);
                                                assert(idx.candidates_of(s)
                                                    =~= old_idx.candidates_of(s).push(fv));
                                                assert(music_with_stem(post, s)
                                                    == music_with_stem(pre, s).push(fv));
                                            } else {
                                                let fi = find_in(old_entries, s);
                                                if fi >= 0 {
                                                    assert(old_entries[fi].stem@ == s);
                                                    assert(fi != j as int);
                                                    assert(new_entries[fi] == old_entries[fi]);
                                                }
                                                assert(music_with_stem(post, s) == music_with_stem(
                                                    pre,
                                                    s,
                                                ));
                                            }
                                        }
                                        assert(playlist_paths_of(post) == playlist_paths_of(pre));
                                    }
                                },
                                None => {
                                    let ghost old_entries = idx.entries@;
                                    let fc = f.clone();
                                    let ghost fcg = fc;
                                    let mut ps: Vec<String> = Vec::new();
                                    ps.push(fc);
                                    proof {
                                        assert(ps@ =~= seq![fcg]);
                                    }
                                    let new_entry = IndexEntry { stem, paths: ps };
                                    idx.entries.push(new_entry);
                                    proof {
                                        let new_entries = idx.entries@;
                                        let e = new_entries.last();
                                        assert(new_entries == old_entries.push(e));
                                        assert(e.stem@ == stemv);
                                        assert(e.paths.deep_view() =~= seq![fv]);
                                        lemma_find_in_props(old_entries, stemv);
                                        assert(idx.wf()) by {
                                            assert forall|i2: int, k: int|
                                                0 <= i2 < new_entries.len() && 0 <= k
                                                    < new_entries[i2].paths@.len() implies path_stem(
                                                new_entries[i2].paths@[k]@,
                                            ) == Some(new_entries[i2].stem@) by {
                                                if i2 < old_entries.len() {
                                                    assert(new_entries[i2] == old_entries[i2]);
                                                } else {
                                                    assert(new_entries[i2] == e);
                                                }
                                            }
                                        }
                                        assert forall|s: Seq<char>|
                                            #[trigger] idx.candidates_of(s) == music_with_stem(
                                                post,
                                                s,
                                            ) by {
                                            lemma_find_in_push(old_entries, e, s);
                                            lemma_find_in_props(old_entries, s);
                                            assert(old_idx.candidates_of(s) == music_with_stem(
                                                pre,
                                                s,
                                            ));
                                            if s == stemv {
                                                assert(find_in(new_entries, s)
                                                    == old_entries.len());
                                                assert(idx.candidates_of(s) == e.paths.deep_view());
                                                assert(music_with_stem(pre, s)
                                                    == old_idx.candidates_of(s));
                                                assert(music_with_stem(post, s)
                                                    == music_with_stem(pre, s).push(fv));
                                                assert(music_with_stem(pre, s).push(fv)
                                                    =~= seq![fv]);
                                            } else {
                                                let fi = find_in(old_entries, s);
                                                if fi >= 0 {
                                                    assert(new_entries[fi] == old_entries[fi]);
                                                }
                                                assert(music_with_stem(post, s) == music_with_stem(
                                                    pre,
                                                    s,
                                                ));
                                            }
                                        }
                                        assert(playlist_paths_of(post) == playlist_paths_of(pre));
                                    }
                                },
                            }
                        },
                        Extension::Playlist => {
                            let fc = f.clone();
                            playlists.push(fc);
                            proof {
                                assert(playlists.deep_view() =~= old_pl_deep.push(fv));
                                assert(playlist_paths_of(post) == playlist_paths_of(pre).push(fv));
                                assert forall|s: Seq<char>|
                                    #[trigger] idx.candidates_of(s) == music_with_stem(post, s) by {
                                    assert(music_with_stem(post, s) == music_with_stem(pre, s));
                                }
                            }
                        },
                        Extension::Unknown => {
                            proof {
                                assert forall|s: Seq<char>|
                                    #[trigger] idx.candidates_of(s) == music_with_stem(post, s) by {
                                    assert(music_with_stem(post, s) == music_with_stem(pre, s));
                                }
                                assert(playlist_paths_of(post) == playlist_paths_of(pre));
                            }
                        },
                    }
                },
                None => {
                    proof {
                        assert(path_extension(fv) is None);
                        assert forall|s: Seq<char>|
                            #[trigger] idx.candidates_of(s) == music_with_stem(post, s) by {
                            assert(music_with_stem(post, s) == music_with_stem(pre, s));
                        }
                        assert(playlist_paths_of(post) == playlist_paths_of(pre));
                    }
                },
            }
        } else {
            proof {
                assert(!has_file_name(fv));
                assert(path_extension(fv) is None);
                assert forall|s: Seq<char>|
                    #[trigger] idx.candidates_of(s) == music_with_stem(post, s) by {
                    assert(music_with_stem(post, s) == music_with_stem(pre, s));
                }
                assert(playlist_paths_of(post) == playlist_paths_of(pre));
            }
        }
        i += 1;
    }
    proof {
        assert(files.deep_view().take(n as int) =~= files.deep_view());
    }
    (idx, playlists)
}

} // verus!
