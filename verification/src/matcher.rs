//! Reference resolution: finding the best local candidate for a playlist
//! reference.
//!
//! A reference is compared only against local files sharing its stem.  Each
//! candidate is scored by walking both paths' directory segments in reverse,
//! in lock-step, from the parent of the file name outward: the score is the
//! position of the first divergence, and stays 0 when no divergence occurs
//! within the overlap.  The first candidate with an extension becomes the
//! best; a later one replaces it when its score is strictly greater, or on
//! a tied score when it matches the reference's extension and the current
//! best does not.  Only a reference none of whose candidates has an
//! extension finds no match at this stage.

use vstd::prelude::*;
use vstd::string::*;

use crate::index::{find_in, lemma_find_in_props, LocalIndex};
use crate::paths::{
    dirs_of, ext_of, file_name_of, has_file_name, path_extension, path_segments, path_stem,
    split_file_name,
};
use crate::strutil::str_eq;

verus! {

/// Position of the first divergence of `cd` and `rd`, walked in reverse in
/// lock-step starting at offset `i`; 0 when they never diverge within the
/// overlap.
pub open spec fn score_from(cd: Seq<Seq<char>>, rd: Seq<Seq<char>>, i: nat) -> nat
    decreases cd.len() + rd.len() - 2 * i,
{
    if i >= cd.len() || i >= rd.len() {
        0
    } else if cd[cd.len() - 1 - i] != rd[rd.len() - 1 - i] {
        i
    } else {
        score_from(cd, rd, i + 1)
    }
}

/// The number of matching trailing directory segments of a candidate and a
/// reference, as the scoring walk counts them.
pub open spec fn match_score(c: Seq<char>, r: Seq<char>) -> nat {
    score_from(dirs_of(c), dirs_of(r), 0)
}

/// Whether candidate and reference have equal extensions.
pub open spec fn ext_matches(c: Seq<char>, r: Seq<char>) -> bool {
    path_extension(c) == path_extension(r)
}

/// The running state of the scoring loop.
pub ghost struct BestMatch {
    pub path: Option<Seq<char>>,
    pub score: nat,
    pub ext: bool,
}

pub open spec fn initial_best() -> BestMatch {
    BestMatch { path: None, score: 0, ext: false }
}

/// One step of the scoring loop: candidates without an extension are
/// skipped; any comparable candidate is accepted while no best exists yet,
/// and thereafter a candidate replaces the best on a strictly greater
/// score, or on a tied score when only the candidate matches the
/// reference's extension.
pub open spec fn step_best(best: BestMatch, c: Seq<char>, r: Seq<char>) -> BestMatch {
    if path_extension(c) is None {
        best
    } else {
        let s = match_score(c, r);
        let e = ext_matches(c, r);
        if best.path is None || best.score < s || (best.score == s && !best.ext && e) {
            BestMatch { path: Some(c), score: s, ext: e }
        } else {
            best
        }
    }
}

/// The scoring loop over a candidate list, in order.
pub open spec fn scan_best(cands: Seq<Seq<char>>, r: Seq<char>) -> BestMatch
    decreases cands.len(),
{
    if cands.len() == 0 {
        initial_best()
    } else {
        step_best(scan_best(cands.drop_last(), r), cands.last(), r)
    }
}

/// What resolution returns: nothing when the reference lacks a stem or an
/// extension, or when every candidate sharing its stem lacks one;
/// otherwise the best-scoring comparable candidate.
pub open spec fn resolve(index: LocalIndex, r: Seq<char>) -> Option<Seq<char>> {
    if path_extension(r) is None {
        None
    } else {
        match path_stem(r) {
            Some(st) => scan_best(index.candidates_of(st), r).path,
            None => None,
        }
    }
}

/// Computes the reverse lock-step divergence score of two directory-segment
/// lists.
pub fn matching_components(cand_dirs: &Vec<String>, ref_dirs: &Vec<String>) -> (n: usize)
    ensures
        n == score_from(cand_dirs.deep_view(), ref_dirs.deep_view(), 0),
{
    let ghost cd = cand_dirs.deep_view();
    let ghost rd = ref_dirs.deep_view();
    let cl = cand_dirs.len();
    let rl = ref_dirs.len();
    let mut k: usize = 0;
    while k < cl && k < rl
        invariant
            cl == cand_dirs@.len(),
            rl == ref_dirs@.len(),
            cd == cand_dirs.deep_view(),
            rd == ref_dirs.deep_view(),
            k <= cl,
            k <= rl,
            score_from(cd, rd, 0) == score_from(cd, rd, k as nat),
        decreases cl - k,
    {
        let a = &cand_dirs[cl - 1 - k];
        let b = &ref_dirs[rl - 1 - k];
        proof {
            assert(cd[cl - 1 - k] == cand_dirs@[cl - 1 - k as int]@);
            assert(rd[rl - 1 - k] == ref_dirs@[rl - 1 - k as int]@);
        }
        if !str_eq(a.as_str(), b.as_str()) {
            proof {
                assert(score_from(cd, rd, k as nat) == k);
            }
            return k;
        }
        proof {
            assert(score_from(cd, rd, k as nat) == score_from(cd, rd, k as nat + 1));
        }
        k += 1;
    }
    proof {
        assert(score_from(cd, rd, k as nat) == 0);
    }
    0
}

/// Resolves a playlist reference against the index, returning a view into
/// the index's path storage.
pub fn match_file<'a>(index: &'a LocalIndex, file_path: &str) -> (r: Option<&'a String>)
    ensures
        match r {
            Some(p) => resolve(*index, file_path@) == Some(p@),
            None => resolve(*index, file_path@) is None,
        },
{
    let ghost rv = file_path@;
    let mut ref_dirs = path_segments(file_path);
    let name = match ref_dirs.pop() {
        Some(nm) => nm,
        None => {
            proof {
                assert(!has_file_name(rv));
            }
            return None;
        },
    };
    proof {
        assert(ref_dirs.deep_view() =~= dirs_of(rv));
        assert(name@ == file_name_of(rv));
    }
    let (stem, ext_opt) = split_file_name(name.as_str());
    let rext = match ext_opt {
        Some(e) => e,
        None => {
            proof {
                assert(path_extension(rv) is None);
            }
            return None;
        },
    };
    proof {
        assert(path_stem(rv) == Some(stem@));
        assert(path_extension(rv) == Some(rext@));
    }
    let j = match index.lookup(stem.as_str()) {
        Some(j) => j,
        None => {
            proof {
                assert(index.candidates_of(stem@) == Seq::<Seq<char>>::empty());
                assert(scan_best(Seq::<Seq<char>>::empty(), rv) == initial_best());
            }
            return None;
        },
    };
    let ghost cands = index.entries@[j as int].paths.deep_view();
    proof {
        assert(index.candidates_of(stem@) == cands);
    }
    let m = index.entries[j].paths.len();
    let mut best: Option<&'a String> = None;
    let mut best_score: usize = 0;
    let mut best_ext: bool = false;
    let mut k: usize = 0;
    while k < m
        invariant
            j < index.entries@.len(),
            m == index.entries@[j as int].paths@.len(),
            cands == index.entries@[j as int].paths.deep_view(),
            rv == file_path@,
            ref_dirs.deep_view() == dirs_of(rv),
            rext@ == ext_of(file_name_of(rv)),
            path_extension(rv) == Some(rext@),
            k <= m,
            best_score == scan_best(cands.take(k as int), rv).score,
            best_ext == scan_best(cands.take(k as int), rv).ext,
            match best {
                Some(p) => scan_best(cands.take(k as int), rv).path == Some(p@),
                None => scan_best(cands.take(k as int), rv).path is None,
            },
        decreases m - k,
    {
        let ghost prev = scan_best(cands.take(k as int), rv);
        let ghost cv = cands[k as int];
        proof {
            assert(cands.take(k as int + 1).drop_last() =~= cands.take(k as int));
            assert(cands.take(k as int + 1).last() == cv);
            assert(scan_best(cands.take(k as int + 1), rv) == step_best(prev, cv, rv));
        }
        let cand: &'a String = &index.entries[j].paths[k];
        proof {
            assert(cand@ == cv);
        }
        let mut cand_dirs = path_segments(cand.as_str());
        match cand_dirs.pop() {
            None => {
                proof {
                    assert(!has_file_name(cv));
                    assert(path_extension(cv) is None);
                    assert(step_best(prev, cv, rv) == prev);
                }
            },
            Some(cname) => {
                proof {
                    assert(cand_dirs.deep_view() =~= dirs_of(cv));
                    assert(cname@ == file_name_of(cv));
                }
                let (_cstem, cext_opt) = split_file_name(cname.as_str());
                match cext_opt {
                    None => {
                        proof {
                            assert(path_extension(cv) is None);
                            assert(step_best(prev, cv, rv) == prev);
                        }
                    },
                    Some(cext) => {
                        proof {
                            assert(path_extension(cv) == Some(cext@));
                        }
                        let sc = matching_components(&cand_dirs, &ref_dirs);
                        let e = str_eq(cext.as_str(), rext.as_str());
                        proof {
                            assert(sc == match_score(cv, rv));
                            assert(e == ext_matches(cv, rv));
                        }
                        if best.is_none() || best_score < sc || (best_score == sc && !best_ext
                            && e) {
                            best = Some(cand);
                            best_score = sc;
                            best_ext = e;
                        }
                    },
                }
            },
        }
        k += 1;
    }
    proof {
        assert(cands.take(m as int) =~= cands);
    }
    best
}

/// Whatever the scoring loop returns was one of the candidates.
proof fn lemma_scan_membership(cands: Seq<Seq<char>>, r: Seq<char>)
    ensures
        match scan_best(cands, r).path {
            Some(p) => cands.contains(p),
            None => true,
        },
    decreases cands.len(),
{
    if cands.len() > 0 {
        lemma_scan_membership(cands.drop_last(), r);
        match scan_best(cands, r).path {
            Some(p) => {
                if p == cands.last() {
                    assert(cands[cands.len() - 1] == p);
                } else {
                    let prev = scan_best(cands.drop_last(), r);
                    assert(prev.path == Some(p));
                    assert(cands.drop_last().contains(p));
                    let i = choose|i: int|
                        0 <= i < cands.drop_last().len() && cands.drop_last()[i] == p;
                    assert(cands[i] == p);
                }
            },
            None => {},
        }
    }
}

/// Stem gating: a file returned by `resolve` has the reference's stem.
/// Candidates come only from the entry found for the reference's stem, and
/// a well-formed index records under each stem only files bearing it.
pub proof fn lemma_stem_gating(index: LocalIndex, r: Seq<char>, f: Seq<char>)
    requires
        index.wf(),
        resolve(index, r) == Some(f),
    ensures
        path_stem(f) == path_stem(r),
{
    match path_stem(r) {
        Some(st) => {
            lemma_scan_membership(index.candidates_of(st), r);
            assert(index.candidates_of(st).contains(f));
            lemma_find_in_props(index.entries@, st);
            let fi = find_in(index.entries@, st);
            assert(fi >= 0);
            assert(index.entries@[fi].stem@ == st);
            let k = choose|k: int|
                0 <= k < index.candidates_of(st).len() && index.candidates_of(st)[k] == f;
            assert(index.entries@[fi].paths@[k]@ == f);
            assert(path_stem(f) == Some(st));
        },
        None => {
            assert(false);
        },
    }
}

/// No candidate, no match: a reference whose stem has no entry in the
/// index never resolves.
pub proof fn lemma_no_entry_no_match(index: LocalIndex, r: Seq<char>)
    requires
        match path_stem(r) {
            Some(st) => !index.contains_stem(st),
            None => true,
        },
    ensures
        resolve(index, r) is None,
{
    if path_extension(r) is Some {
        match path_stem(r) {
            Some(st) => {
                assert(index.candidates_of(st) == Seq::<Seq<char>>::empty());
                assert(scan_best(Seq::<Seq<char>>::empty(), r) == initial_best());
            },
            None => {},
        }
    }
}

/// A reference without an extension never resolves, whatever the index
/// holds.
pub proof fn lemma_no_extension_no_match(index: LocalIndex, r: Seq<char>)
    requires
        path_extension(r) is None,
    ensures
        resolve(index, r) is None,
{
}

/// Tie-break direction: of two candidates with equal scores, one matching
/// the reference's extension and one not, `resolve` returns the matching
/// one, in either candidate order.
pub proof fn lemma_tie_break(index: LocalIndex, a: Seq<char>, b: Seq<char>, r: Seq<char>)
    requires
        path_extension(r) is Some,
        match path_stem(r) {
            Some(st) => index.candidates_of(st) == seq![a, b] || index.candidates_of(st) == seq![
                b,
                a,
            ],
            None => false,
        },
        path_extension(a) is Some,
        path_extension(b) is Some,
        match_score(a, r) == match_score(b, r),
        !ext_matches(a, r),
        ext_matches(b, r),
    ensures
        resolve(index, r) == Some(b),
{
    assert(seq![a, b].drop_last() =~= seq![a]);
    assert(seq![a].drop_last() =~= Seq::<Seq<char>>::empty());
    assert(seq![b, a].drop_last() =~= seq![b]);
    assert(seq![b].drop_last() =~= Seq::<Seq<char>>::empty());
    assert(scan_best(Seq::<Seq<char>>::empty(), r) == initial_best());
    assert(scan_best(seq![a], r) == step_best(initial_best(), a, r));
    assert(scan_best(seq![a, b], r) == step_best(scan_best(seq![a], r), b, r));
    assert(scan_best(seq![b], r) == step_best(initial_best(), b, r));
    assert(scan_best(seq![b, a], r) == step_best(scan_best(seq![b], r), a, r));
    assert(scan_best(seq![a, b], r).path == Some(b));
    assert(scan_best(seq![b, a], r).path == Some(b));
}

/// Strict improvement: of two candidates with unequal scores, `resolve`
/// returns the strictly higher-scoring one, in either candidate order and
/// regardless of extension matches.
pub proof fn lemma_strict_improvement(index: LocalIndex, a: Seq<char>, b: Seq<char>, r: Seq<char>)
    requires
        path_extension(r) is Some,
        match path_stem(r) {
            Some(st) => index.candidates_of(st) == seq![a, b] || index.candidates_of(st) == seq![
                b,
                a,
            ],
            None => false,
        },
        path_extension(a) is Some,
        path_extension(b) is Some,
        match_score(a, r) < match_score(b, r),
    ensures
        resolve(index, r) == Some(b),
{
    assert(seq![a, b].drop_last() =~= seq![a]);
    assert(seq![a].drop_last() =~= Seq::<Seq<char>>::empty());
    assert(seq![b, a].drop_last() =~= seq![b]);
    assert(seq![b].drop_last() =~= Seq::<Seq<char>>::empty());
    assert(scan_best(Seq::<Seq<char>>::empty(), r) == initial_best());
    assert(scan_best(seq![a], r) == step_best(initial_best(), a, r));
    assert(scan_best(seq![a, b], r) == step_best(scan_best(seq![a], r), b, r));
    assert(scan_best(seq![b], r) == step_best(initial_best(), b, r));
    assert(scan_best(seq![b, a], r) == step_best(scan_best(seq![b], r), a, r));
    assert(scan_best(seq![a, b], r).path == Some(b));
    assert(scan_best(seq![b, a], r).path == Some(b));
}

} // verus!
