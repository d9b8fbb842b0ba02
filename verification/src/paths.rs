//! File-path predicates over `/`-separated paths, read the way
//! `std::path::Path` reads them: empty and `.` components do not count.
use vstd::prelude::*;

use crate::text::{chars_of, first_index_of, has_suffix, lemma_first_index_of,
    lemma_first_index_of_unique, copy_range, is_lit};

verus! {

/// A piece between separators that names something: not empty, not `.`.
pub open spec fn keep_piece(x: Seq<char>) -> Seq<Seq<char>> {
    if x.len() == 0 || x == "."@ {
        Seq::empty()
    } else {
        seq![x]
    }
}

/// The components of `p`: the pieces between `/` separators, leaving out
/// empty ones and `.`.
pub open spec fn path_pieces(p: Seq<char>) -> Seq<Seq<char>>
    decreases p.len(),
{
    if p.len() == 0 {
        Seq::empty()
    } else {
        match first_index_of(p, '/') {
            None => keep_piece(p),
            Some(i) => if 0 <= i < p.len() {
                keep_piece(p.subrange(0, i)) + path_pieces(p.subrange(i + 1, p.len() as int))
            } else {
                keep_piece(p)
            },
        }
    }
}

/// The final component of `p`, as `Path::file_name` gives it: none when
/// there are no components or the last one is `..`.
pub open spec fn file_name(p: Seq<char>) -> Option<Seq<char>> {
    let pieces = path_pieces(p);
    if pieces.len() == 0 || pieces.last() == ".."@ {
        None
    } else {
        Some(pieces.last())
    }
}

/// The components of `p`.
pub fn path_pieces_of(p: &[char]) -> (out: Vec<Vec<char>>)
    ensures
        out@.len() == path_pieces(p@).len(),
        forall|k: int| 0 <= k < out@.len() ==> #[trigger] out@[k]@ == path_pieces(p@)[k],
{
    let n = p.len();
    let mut out: Vec<Vec<char>> = Vec::new();
    let mut i: usize = 0;
    let ghost mut done: Seq<Seq<char>> = Seq::empty();
    assert(p@.subrange(0, n as int) =~= p@);
    while i < n
        invariant
            i <= n == p@.len(),
            out@.len() == done.len(),
            forall|k: int| 0 <= k < out@.len() ==> #[trigger] out@[k]@ == done[k],
            path_pieces(p@) == done + path_pieces(p@.subrange(i as int, n as int)),
        decreases n - i,
    {
        let ghost sub = p@.subrange(i as int, n as int);
        let mut j = i;
        while j < n && p[j] != '/'
            invariant
                i <= j <= n == p@.len(),
                forall|k: int| i <= k < j ==> p@[k] != '/',
            decreases n - j,
        {
            j = j + 1;
        }
        let piece = copy_range(p, i, j);
        let keep = piece.len() > 0 && !is_lit(piece.as_slice(), ".");
        let ghost kept = keep_piece(piece@);
        proof {
            if j < n {
                lemma_first_index_of_unique(sub, '/', (j - i) as int);
                assert(sub.subrange(0, (j - i) as int) =~= piece@);
                assert(sub.subrange((j - i) + 1, sub.len() as int) =~= p@.subrange(j + 1, n as int));
            } else {
                lemma_first_index_of(sub, '/');
                assert(piece@ =~= sub);
            }
        }
        if keep {
            out.push(piece);
        }
        proof {
            if keep {
                assert(kept == seq![piece@]);
            } else {
                assert(kept =~= Seq::<Seq<char>>::empty());
            }
            done = done + kept;
        }
        if j < n {
            i = j + 1;
        } else {
            i = n;
        }
        proof {
            if j >= n {
                assert(path_pieces(p@.subrange(n as int, n as int)) =~= Seq::<Seq<char>>::empty());
                assert(path_pieces(sub) == kept);
            }
            assert(done.subrange(0, done.len() - kept.len()) + (kept + path_pieces(
                p@.subrange(i as int, n as int),
            )) =~= done + path_pieces(p@.subrange(i as int, n as int)));
            assert(done.subrange(0, done.len() - kept.len()) + kept =~= done);
        }
    }
    assert(path_pieces(p@.subrange(n as int, n as int)) =~= Seq::<Seq<char>>::empty());
    assert(done + Seq::<Seq<char>>::empty() =~= done);
    out
}

/// The final component of `path`, if it has one.
pub fn file_name_of(path: &str) -> (r: Option<Vec<char>>)
    ensures
        r is Some == file_name(path@) is Some,
        r matches Some(name) ==> file_name(path@) == Some(name@),
{
    let p = chars_of(path);
    let pieces = path_pieces_of(p.as_slice());
    if pieces.len() == 0 {
        return None;
    }
    let last = &pieces[pieces.len() - 1];
    if is_lit(last.as_slice(), "..") {
        return None;
    }
    Some(copy_range(last.as_slice(), 0, last.len()))
}

/// Production source for the review gate: any file except a build script.
pub open spec fn production_path(p: Seq<char>) -> bool {
    match file_name(p) {
        Some(name) => name != "build.rs"@,
        None => false,
    }
}

/// Returns true if the path is treated as production source for the
/// review gate (everything with a file name other than `build.rs`).
pub fn is_production_path(path: &str) -> (r: bool)
    ensures
        r == production_path(path@),
{
    match file_name_of(path) {
        Some(name) => !is_lit(name.as_slice(), "build.rs"),
        None => false,
    }
}

/// A path the serde derive check covers: anything that is not a build
/// script, including paths without a file name.
pub open spec fn included_path(p: Seq<char>) -> bool {
    match file_name(p) {
        Some(name) => name != "build.rs"@,
        None => true,
    }
}

/// Returns true unless the path names a build script.
pub fn is_included_path(path: &str) -> (r: bool)
    ensures
        r == included_path(path@),
{
    match file_name_of(path) {
        Some(name) => !is_lit(name.as_slice(), "build.rs"),
        None => true,
    }
}

/// The path ends with the components of `child`, as `Path::ends_with`.
pub open spec fn path_ends_with(p: Seq<char>, child: Seq<char>) -> bool {
    has_suffix(path_pieces(p), path_pieces(child))
}

/// Whether the trailing components of `path` are those of `child`.
pub fn ends_with_components(path: &str, child: &str) -> (r: bool)
    ensures
        r == path_ends_with(path@, child@),
{
    let p = chars_of(path);
    let c = chars_of(child);
    let ps = path_pieces_of(p.as_slice());
    let cs = path_pieces_of(c.as_slice());
    let ghost pp = path_pieces(p@);
    let ghost cp = path_pieces(c@);
    if cs.len() > ps.len() {
        return false;
    }
    let off = ps.len() - cs.len();
    let mut k: usize = 0;
    while k < cs.len()
        invariant
            off + cs@.len() == ps@.len(),
            ps@.len() == ps.len(),
            p@ == path@,
            c@ == child@,
            pp == path_pieces(p@),
            cp == path_pieces(c@),
            ps@.len() == pp.len(),
            cs@.len() == cp.len(),
            forall|i: int| 0 <= i < ps@.len() ==> #[trigger] ps@[i]@ == pp[i],
            forall|i: int| 0 <= i < cs@.len() ==> #[trigger] cs@[i]@ == cp[i],
            k <= cs@.len(),
            forall|i: int| 0 <= i < k ==> pp[off + i] == cp[i],
        decreases cs@.len() - k,
    {
        let a = &ps[off + k];
        let b = &cs[k];
        let same = a.len() == b.len() && crate::text::chars_match_at(a.as_slice(), 0, b.as_slice());
        proof {
            if same {
                assert(a@.subrange(0, b@.len() as int) =~= a@);
            }
        }
        if !same {
            proof {
                assert(pp.subrange(off as int, off + cp.len())[k as int] != cp[k as int]) by {
                    assert(a@ == pp[off + k]);
                    if a@ == b@ {
                        assert(a@.subrange(0, b@.len() as int) =~= b@);
                    }
                };
                assert(!has_suffix(pp, cp));
            }
            return false;
        }
        k = k + 1;
    }
    assert(pp.subrange(off as int, off + cp.len()) =~= cp);
    true
}

} // verus!
