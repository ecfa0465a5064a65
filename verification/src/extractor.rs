//! Extracting references from a playlist's text.
//!
//! The text is line-oriented: lines are terminated by `\n`, with a `\r`
//! directly before the terminator stripped, and a final unterminated line
//! kept as it stands.  Lines beginning with the four-character directive
//! marker `#EXT` carry metadata and are skipped; every other line — blank
//! lines included — is taken verbatim as a reference and separator-
//! normalized.

use vstd::prelude::*;
use vstd::string::*;

use crate::paths::{normalized, platform_path};
use crate::strutil::push_char_from;

verus! {

/// A line with a single trailing carriage return removed.
pub open spec fn strip_cr(l: Seq<char>) -> Seq<char> {
    if l.len() > 0 && l.last() == '\r' {
        l.drop_last()
    } else {
        l
    }
}

/// What follows the last line terminator of `s`.
pub open spec fn open_line(s: Seq<char>) -> Seq<char>
    decreases s.len(),
{
    if s.len() == 0 {
        Seq::<char>::empty()
    } else if s.last() == '\n' {
        Seq::<char>::empty()
    } else {
        open_line(s.drop_last()).push(s.last())
    }
}

/// The terminated lines of `s`, each with a `\r` before its terminator
/// stripped.
pub open spec fn closed_lines(s: Seq<char>) -> Seq<Seq<char>>
    decreases s.len(),
{
    if s.len() == 0 {
        Seq::<Seq<char>>::empty()
    } else if s.last() == '\n' {
        closed_lines(s.drop_last()).push(strip_cr(open_line(s.drop_last())))
    } else {
        closed_lines(s.drop_last())
    }
}

/// The lines of `s`: its terminated lines, then its final unterminated
/// line when that is nonempty.
pub open spec fn lines_of(s: Seq<char>) -> Seq<Seq<char>> {
    if open_line(s).len() > 0 {
        closed_lines(s).push(open_line(s))
    } else {
        closed_lines(s)
    }
}

/// A metadata directive line: it begins with the marker `#EXT`.
pub open spec fn is_directive(l: Seq<char>) -> bool {
    l.len() >= 4 && l.subrange(0, 4) == "#EXT"@
}

/// The references carried by a sequence of lines: every non-directive
/// line, separator-normalized, in order.
pub open spec fn references_of_lines(ls: Seq<Seq<char>>) -> Seq<Seq<char>>
    decreases ls.len(),
{
    if ls.len() == 0 {
        Seq::<Seq<char>>::empty()
    } else {
        let rest = references_of_lines(ls.drop_last());
        if is_directive(ls.last()) {
            rest
        } else {
            rest.push(normalized(ls.last()))
        }
    }
}

/// The references carried by a playlist's text.
pub open spec fn references_of(text: Seq<char>) -> Seq<Seq<char>> {
    references_of_lines(lines_of(text))
}

/// Splits text into its lines.
pub fn lines(text: &str) -> (r: Vec<String>)
    ensures
        r.deep_view() == lines_of(text@),
{
    let len = text.unicode_len();
    let mut out: Vec<String> = Vec::new();
    let mut cur = String::new();
    let mut i: usize = 0;
    while i < len
        invariant
            len == text@.len(),
            i <= len,
            cur@ == open_line(text@.take(i as int)),
            out.deep_view() == closed_lines(text@.take(i as int)),
        decreases len - i,
    {
        let ghost pre = text@.take(i as int);
        let ghost post = text@.take(i as int + 1);
        proof {
            assert(post.drop_last() =~= pre);
        }
        let c = text.get_char(i);
        if c == '\n' {
            let ghost out_pre = out.deep_view();
            let ghost curv = cur@;
            let cl = cur.as_str().unicode_len();
            if cl > 0 && cur.as_str().get_char(cl - 1) == '\r' {
                let stripped = String::from_str(cur.as_str().substring_char(0, cl - 1));
                proof {
                    assert(stripped@ =~= strip_cr(curv));
                }
                out.push(stripped);
            } else {
                proof {
                    assert(strip_cr(curv) == curv);
                }
                out.push(cur);
            }
            cur = String::new();
            proof {
                assert(out.deep_view() =~= out_pre.push(strip_cr(curv)));
                assert(closed_lines(post) == closed_lines(pre).push(strip_cr(open_line(pre))));
                assert(open_line(post) =~= Seq::<char>::empty());
            }
        } else {
            push_char_from(&mut cur, text, i);
            proof {
                assert(open_line(post) == open_line(pre).push(text@[i as int]));
                assert(closed_lines(post) == closed_lines(pre));
            }
        }
        i += 1;
    }
    proof {
        assert(text@.take(len as int) =~= text@);
    }
    if !cur.as_str().is_empty() {
        let ghost out_pre = out.deep_view();
        let ghost curv = cur@;
        out.push(cur);
        proof {
            assert(out.deep_view() =~= out_pre.push(curv));
        }
    }
    out
}

/// Extracts the references from a playlist's text: one per line, directive
/// lines skipped, each reference separator-normalized.
pub fn m3u_playlist_paths(text: &str) -> (r: Vec<String>)
    ensures
        r.deep_view() == references_of(text@),
{
    let ls = lines(text);
    let n = ls.len();
    let mut out: Vec<String> = Vec::new();
    let mut i: usize = 0;
    while i < n
        invariant
            n == ls@.len(),
            i <= n,
            ls.deep_view() == lines_of(text@),
            out.deep_view() == references_of_lines(ls.deep_view().take(i as int)),
        decreases n - i,
    {
        let ghost lsd = ls.deep_view();
        proof {
            assert(lsd.take(i as int + 1).drop_last() =~= lsd.take(i as int));
            assert(lsd.take(i as int + 1).last() == lsd[i as int]);
            assert(lsd[i as int] == ls@[i as int]@);
        }
        let l = &ls[i];
        let dl = l.as_str().unicode_len();
        let is_dir = dl >= 4 && l.as_str().get_char(0) == '#' && l.as_str().get_char(1) == 'E'
            && l.as_str().get_char(2) == 'X' && l.as_str().get_char(3) == 'T';
        proof {
            reveal_strlit("#EXT");
            if is_dir {
                assert(l@.subrange(0, 4) =~= "#EXT"@);
            } else if dl >= 4 && l@.subrange(0, 4) == "#EXT"@ {
                assert(l@.subrange(0, 4)[0] == l@[0]);
                assert(l@.subrange(0, 4)[1] == l@[1]);
                assert(l@.subrange(0, 4)[2] == l@[2]);
                assert(l@.subrange(0, 4)[3] == l@[3]);
            }
            assert(is_dir == is_directive(lsd[i as int]));
        }
        if !is_dir {
            let ghost out_pre = out.deep_view();
            let p = platform_path(l.as_str());
            let ghost pv = p@;
            out.push(p);
            proof {
                assert(out.deep_view() =~= out_pre.push(pv));
            }
        }
        i += 1;
    }
    proof {
        assert(ls.deep_view().take(n as int) =~= ls.deep_view());
    }
    out
}

/// Idempotence of parsing: extraction is a pure function of the playlist
/// text, so identical text yields identical reference sequences.
pub proof fn lemma_extraction_idempotent(t1: Seq<char>, t2: Seq<char>)
    requires
        t1 == t2,
    ensures
        references_of(t1) == references_of(t2),
{
}

/// Empty playlist text carries no references.
pub proof fn lemma_empty_text_no_references()
    ensures
        references_of(Seq::<char>::empty()) == Seq::<Seq<char>>::empty(),
{
    assert(open_line(Seq::<char>::empty()) == Seq::<char>::empty());
    assert(closed_lines(Seq::<char>::empty()) == Seq::<Seq<char>>::empty());
    assert(lines_of(Seq::<char>::empty()) == Seq::<Seq<char>>::empty());
    assert(references_of_lines(Seq::<Seq<char>>::empty()) == Seq::<Seq<char>>::empty());
}

} // verus!
