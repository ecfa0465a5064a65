//! A character-level model of file paths.
//!
//! A path is a `String`; its components ("segments") are the maximal
//! nonempty runs of characters other than the separator `/`.  The last
//! segment is the file name; a file name splits into a stem and an
//! extension at its last dot, provided that dot is not its first
//! character.  References taken from playlists may use `\` as their
//! separator; `platform_path` rewrites them to the native `/` first.

use vstd::prelude::*;
use vstd::string::*;

use crate::strutil::push_char_from;

verus! {

/// The segments of a path: the maximal nonempty runs of characters other
/// than `/`, in order.
pub open spec fn segments_of(s: Seq<char>) -> Seq<Seq<char>>
    decreases s.len(),
{
    if s.len() == 0 {
        Seq::<Seq<char>>::empty()
    } else {
        let rest = segments_of(s.drop_last());
        let c = s.last();
        if c == '/' {
            rest
        } else if s.len() >= 2 && s[s.len() - 2] != '/' {
            rest.update(rest.len() - 1, rest.last().push(c))
        } else {
            rest.push(seq![c])
        }
    }
}

/// Index of the last `.` in a file name, or -1 if it has none.
pub open spec fn last_dot(f: Seq<char>) -> int
    decreases f.len(),
{
    if f.len() == 0 {
        -1
    } else if f.last() == '.' {
        f.len() - 1
    } else {
        last_dot(f.drop_last())
    }
}

/// A file name has an extension when its last dot exists and is not its
/// first character.
pub open spec fn has_extension(f: Seq<char>) -> bool {
    last_dot(f) > 0
}

/// The file name with its final extension (and the dot) removed; the whole
/// name when there is no extension.
pub open spec fn stem_of(f: Seq<char>) -> Seq<char> {
    if has_extension(f) {
        f.take(last_dot(f))
    } else {
        f
    }
}

/// What follows the last dot.  Meaningful only when `has_extension(f)`.
pub open spec fn ext_of(f: Seq<char>) -> Seq<char> {
    f.skip(last_dot(f) + 1)
}

/// Whether the path has a file name: at least one segment.
pub open spec fn has_file_name(p: Seq<char>) -> bool {
    segments_of(p).len() > 0
}

/// The last segment of the path.  Meaningful only when `has_file_name(p)`.
pub open spec fn file_name_of(p: Seq<char>) -> Seq<char> {
    segments_of(p).last()
}

/// The stem of the path's file name, if the path has a file name.
pub open spec fn path_stem(p: Seq<char>) -> Option<Seq<char>> {
    if has_file_name(p) {
        Some(stem_of(file_name_of(p)))
    } else {
        None
    }
}

/// The extension of the path's file name, if the path has a file name with
/// an extension.
pub open spec fn path_extension(p: Seq<char>) -> Option<Seq<char>> {
    if has_file_name(p) && has_extension(file_name_of(p)) {
        Some(ext_of(file_name_of(p)))
    } else {
        None
    }
}

/// The directory segments of a path: every segment but the file name.
pub open spec fn dirs_of(p: Seq<char>) -> Seq<Seq<char>> {
    segments_of(p).drop_last()
}

/// The path with every `\` rewritten to the native separator `/`.
pub open spec fn normalized(s: Seq<char>) -> Seq<char> {
    s.map_values(|c: char| if c == '\\' { '/' } else { c })
}

/// Splits a path into its segments.
pub fn path_segments(path: &str) -> (segs: Vec<String>)
    ensures
        segs.deep_view() == segments_of(path@),
{
    let len = path.unicode_len();
    let mut segs: Vec<String> = Vec::new();
    let mut cur: String = String::new();
    let mut i: usize = 0;
    while i < len
        invariant
            len == path@.len(),
            i <= len,
            (i == 0 || path@[i as int - 1] == '/') ==> cur@.len() == 0 && segs.deep_view()
                == segments_of(path@.take(i as int)),
            (i > 0 && path@[i as int - 1] != '/') ==> cur@.len() > 0 && segs.deep_view().push(
                cur@,
            ) == segments_of(path@.take(i as int)),
        decreases len - i,
    {
        let ghost pre = path@.take(i as int);
        let ghost post = path@.take(i as int + 1);
        proof {
            assert(post.drop_last() =~= pre);
        }
        let c = path.get_char(i);
        if c == '/' {
            proof {
                assert(segments_of(post) == segments_of(pre));
            }
            if !cur.as_str().is_empty() {
                let ghost segs_pre = segs.deep_view();
                let ghost cur_pre = cur@;
                segs.push(cur);
                cur = String::new();
                proof {
                    assert(segs.deep_view() =~= segs_pre.push(cur_pre));
                }
            }
        } else {
            if i == 0 {
                proof {
                    assert(cur@ =~= Seq::<char>::empty());
                    assert(segments_of(post) =~= segments_of(pre).push(seq![path@[i as int]]));
                }
            } else if cur.as_str().is_empty() {
                proof {
                    assert(cur@ =~= Seq::<char>::empty());
                    assert(post.len() >= 2 && post[post.len() - 2] == '/');
                    assert(segments_of(post) =~= segments_of(pre).push(seq![path@[i as int]]));
                }
            } else {
                proof {
                    let rest = segments_of(pre);
                    assert(post.len() >= 2 && post[post.len() - 2] != '/');
                    assert(segments_of(post) == rest.update(rest.len() - 1, rest.last().push(
                        path@[i as int],
                    )));
                    assert(rest == segs.deep_view().push(cur@));
                    assert(rest.update(rest.len() - 1, rest.last().push(path@[i as int]))
                        =~= segs.deep_view().push(cur@.push(path@[i as int])));
                }
            }
            push_char_from(&mut cur, path, i);
        }
        i += 1;
    }
    proof {
        assert(path@.take(len as int) =~= path@);
    }
    if !cur.as_str().is_empty() {
        let ghost segs_pre = segs.deep_view();
        let ghost cur_pre = cur@;
        segs.push(cur);
        proof {
            assert(segs.deep_view() =~= segs_pre.push(cur_pre));
        }
    }
    segs
}

/// `last_dot` ignores a dot-free suffix.
proof fn lemma_last_dot_suffix(f: Seq<char>, j: int)
    requires
        0 <= j <= f.len(),
        forall|k: int| j <= k < f.len() ==> f[k] != '.',
    ensures
        last_dot(f) == last_dot(f.take(j)),
    decreases f.len() - j,
{
    if j < f.len() {
        assert(f.drop_last() =~= f.take(f.len() - 1));
        lemma_last_dot_suffix(f.take(f.len() - 1), j);
        assert(f.take(f.len() - 1).take(j) =~= f.take(j));
    } else {
        assert(f.take(j) =~= f);
    }
}

/// Splits a file name into its stem and, when it has one, its extension.
pub fn split_file_name(name: &str) -> (r: (String, Option<String>))
    ensures
        r.0@ == stem_of(name@),
        match r.1 {
            Some(e) => has_extension(name@) && e@ == ext_of(name@),
            None => !has_extension(name@),
        },
{
    let len = name.unicode_len();
    let mut j = len;
    let mut dot: Option<usize> = None;
    while j > 0 && dot.is_none()
        invariant
            len == name@.len(),
            j <= len,
            match dot {
                Some(d) => d < len && name@[d as int] == '.' && forall|k: int|
                    d < k < len ==> name@[k] != '.',
                None => forall|k: int| j <= k < len ==> name@[k] != '.',
            },
        decreases j,
    {
        j -= 1;
        if name.get_char(j) == '.' {
            dot = Some(j);
        }
    }
    match dot {
        Some(d) => {
            proof {
                lemma_last_dot_suffix(name@, d + 1);
                assert(name@.take(d + 1).last() == '.');
                assert(last_dot(name@) == d);
            }
            if d == 0 {
                (String::from_str(name), None)
            } else {
                let stem = String::from_str(name.substring_char(0, d));
                let ext = String::from_str(name.substring_char(d + 1, len));
                proof {
                    assert(name@.subrange(0, d as int) =~= stem_of(name@));
                    assert(name@.subrange(d as int + 1, len as int) =~= ext_of(name@));
                }
                (stem, Some(ext))
            }
        },
        None => {
            proof {
                lemma_last_dot_suffix(name@, 0);
                assert(name@.take(0) =~= Seq::<char>::empty());
                assert(last_dot(name@) == -1);
            }
            (String::from_str(name), None)
        },
    }
}

/// The stem of the path's file name, if any.
pub fn file_stem(path: &str) -> (r: Option<String>)
    ensures
        match r {
            Some(s) => path_stem(path@) == Some(s@),
            None => path_stem(path@) is None,
        },
{
    let segs = path_segments(path);
    if segs.len() == 0 {
        return None;
    }
    let name = &segs[segs.len() - 1];
    let (stem, _ext) = split_file_name(name.as_str());
    proof {
        assert(name@ == file_name_of(path@));
    }
    Some(stem)
}

/// The extension of the path's file name, if any.
pub fn file_extension(path: &str) -> (r: Option<String>)
    ensures
        match r {
            Some(e) => path_extension(path@) == Some(e@),
            None => path_extension(path@) is None,
        },
{
    let segs = path_segments(path);
    if segs.len() == 0 {
        return None;
    }
    let name = &segs[segs.len() - 1];
    let (_stem, ext) = split_file_name(name.as_str());
    proof {
        assert(name@ == file_name_of(path@));
    }
    ext
}

/// Rewrites `\` separators to the native `/`.
pub fn platform_path(string: &str) -> (r: String)
    ensures
        r@ == normalized(string@),
{
    let len = string.unicode_len();
    let mut out = String::new();
    let mut i: usize = 0;
    while i < len
        invariant
            len == string@.len(),
            i <= len,
            out@ == normalized(string@.take(i as int)),
        decreases len - i,
    {
        let c = string.get_char(i);
        if c == '\\' {
            out.append("/");
            proof {
                reveal_strlit("/");
                assert(normalized(string@.take(i as int + 1)) =~= normalized(
                    string@.take(i as int),
                ) + "/"@);
            }
        } else {
            push_char_from(&mut out, string, i);
            proof {
                assert(normalized(string@.take(i as int + 1)) =~= normalized(
                    string@.take(i as int),
                ).push(string@[i as int]));
            }
        }
        i += 1;
    }
    proof {
        assert(string@.take(len as int) =~= string@);
    }
    out
}

} // verus!
