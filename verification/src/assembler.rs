//! Assembling a playlist from extracted references.

use vstd::prelude::*;

use crate::index::LocalIndex;
use crate::matcher::{match_file, resolve};
use crate::playlist::Playlist;

verus! {

/// The references that resolve, in input order, each replaced by the local
/// file it resolved to; references that fail to resolve are dropped.
pub open spec fn resolved_songs(index: LocalIndex, refs: Seq<Seq<char>>) -> Seq<Seq<char>>
    decreases refs.len(),
{
    if refs.len() == 0 {
        Seq::<Seq<char>>::empty()
    } else {
        let rest = resolved_songs(index, refs.drop_last());
        match resolve(index, refs.last()) {
            Some(p) => rest.push(p),
            None => rest,
        }
    }
}

/// Assembles a playlist: resolves each reference against the index, keeps
/// the successes in input order, and silently drops the failures.
pub fn m3u_playlist(index: &LocalIndex, file_paths: &Vec<String>, name: String) -> (p: Playlist)
    ensures
        p.name == name,
        p.songs.deep_view() == resolved_songs(*index, file_paths.deep_view()),
{
    let ghost fd = file_paths.deep_view();
    let mut songs: Vec<String> = Vec::new();
    let n = file_paths.len();
    let mut i: usize = 0;
    while i < n
        invariant
            n == file_paths@.len(),
            fd == file_paths.deep_view(),
            i <= n,
            songs.deep_view() == resolved_songs(*index, fd.take(i as int)),
        decreases n - i,
    {
        proof {
            assert(fd.take(i as int + 1).drop_last() =~= fd.take(i as int));
            assert(fd.take(i as int + 1).last() == fd[i as int]);
            assert(fd[i as int] == file_paths@[i as int]@);
        }
        match match_file(index, file_paths[i].as_str()) {
            Some(p) => {
                let ghost songs_pre = songs.deep_view();
                let pc = p.clone();
                let ghost pcv = pc@;
                songs.push(pc);
                proof {
                    assert(songs.deep_view() =~= songs_pre.push(pcv));
                }
            },
            None => {},
        }
        i += 1;
    }
    proof {
        assert(fd.take(n as int) =~= fd);
    }
    Playlist::new(name, songs)
}

/// A playlist assembled from no references has no songs, whatever the
/// index holds; with `references_of` empty on empty text, an empty or
/// unreadable playlist file therefore yields zero songs.
pub proof fn lemma_no_references_no_songs(index: LocalIndex)
    ensures
        resolved_songs(index, Seq::<Seq<char>>::empty()) == Seq::<Seq<char>>::empty(),
{
}

} // verus!
