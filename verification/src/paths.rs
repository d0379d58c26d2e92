//! Path operations of `std::path` (on Unix), on paths held as strings.
//!
//! Joining is three cases and is written out here. How `std` splits a path
//! into components (separators, `.` components, trailing separators) takes
//! more than a few lines to state, so the results of `parent` and
//! `file_name` are given names below, and only the short facts that callers
//! need are stated beside them.

use vstd::prelude::*;

verus! {

/// What `Path::parent` gives for a path.
pub uninterp spec fn std_path_parent(path: Seq<char>) -> Option<Seq<char>>;

/// What `Path::file_name` gives for a path.
pub uninterp spec fn std_path_file_name(path: Seq<char>) -> Option<Seq<char>>;

/// The characters of `s` from position `i` up to the next `/` or the end.
pub open spec fn segment_from(s: Seq<char>, i: int) -> Seq<char>
    decreases s.len() - i,
{
    if i < 0 || i >= s.len() || s[i] == '/' {
        Seq::empty()
    } else {
        seq![s[i]] + segment_from(s, i + 1)
    }
}

/// The position of the last `/` in `p`, or -1 if there is none.
pub open spec fn last_slash(p: Seq<char>) -> int
    decreases p.len(),
{
    if p.len() == 0 {
        -1
    } else if p.last() == '/' {
        p.len() - 1
    } else {
        last_slash(p.drop_last())
    }
}

/// An absolute path in plain form: a `/`, then one or more components
/// separated by single slashes, none of them empty, `.` or `..`, and no
/// trailing slash. Such a path's components are exactly its slash-separated
/// pieces.
pub open spec fn plain_absolute(p: Seq<char>) -> bool {
    &&& p.len() >= 2
    &&& p[0] == '/'
    &&& forall|j: int|
        1 <= j <= p.len() && p[j - 1] == '/' ==> {
            &&& #[trigger] segment_from(p, j).len() > 0
            &&& segment_from(p, j) != seq!['.']
            &&& segment_from(p, j) != seq!['.', '.']
        }
}

/// The directory that holds the component starting at position `k` (just
/// after a slash): the root for the first component, else everything before
/// that slash.
pub open spec fn dir_of_component(p: Seq<char>, k: int) -> Seq<char> {
    if k == 1 {
        seq!['/']
    } else {
        p.take(k - 1)
    }
}

/// `base` with `rel` adjoined, as `Path::join` does it on Unix: an absolute
/// `rel` replaces `base`; otherwise a `/` goes between the two unless `base`
/// is empty or already ends in one.
pub open spec fn joined(base: Seq<char>, rel: Seq<char>) -> Seq<char> {
    if rel.len() > 0 && rel[0] == '/' {
        rel
    } else if base.len() == 0 || base.last() == '/' {
        base + rel
    } else {
        base + seq!['/'] + rel
    }
}

/// `Path::new(base).join(rel)`, as a string.
pub fn path_join(base: &str, rel: &str) -> (r: String)
    ensures
        r@ == joined(base@, rel@),
{
    let rc = crate::text::chars_of(rel);
    let bc = crate::text::chars_of(base);
    let mut r = String::new();
    if !(rc.len() > 0 && rc[0] == '/') {
        crate::text::push_str(&mut r, base);
        if bc.len() > 0 && bc[bc.len() - 1] != '/' {
            r.push('/');
        }
    }
    crate::text::push_str(&mut r, rel);
    r
}

/// `std::path::Path::parent`: the path without its final component, or
/// `None` when the path ends in a root or is empty. Claimed: the result is
/// `std_path_parent` of the argument; a parent is shorter than the path (it
/// is the path with its final component taken off); the empty path and the
/// root `/` have none (as the documentation says); and for a plain absolute
/// path, whose components are its slash-separated pieces, taking the final
/// one off leaves what precedes its slash, or `/` for the first component.
#[verifier::external_body]
pub(crate) fn path_parent(path: &str) -> (r: Option<String>)
    ensures
        match r {
            Some(p) => std_path_parent(path@) == Some(p@) && p@.len() < path@.len(),
            None => std_path_parent(path@) == None::<Seq<char>>,
        },
        path@.len() == 0 || path@ == seq!['/'] ==> r is None,
        plain_absolute(path@) ==> r.is_some() && r.unwrap()@ == dir_of_component(path@, last_slash(path@) + 1),
{
    std::path::Path::new(path).parent().map(|p| p.to_string_lossy().into_owned())
}

/// `std::path::Path::file_name`: the final component when it is a normal
/// one. Claimed: the result is `std_path_file_name` of the argument, and
/// for a plain absolute path it is the piece after the last slash.
#[verifier::external_body]
pub(crate) fn path_file_name(path: &str) -> (r: Option<String>)
    ensures
        match r {
            Some(n) => std_path_file_name(path@) == Some(n@),
            None => std_path_file_name(path@) == None::<Seq<char>>,
        },
        plain_absolute(path@) ==> r.is_some() && r.unwrap()@ == segment_from(path@, last_slash(path@) + 1),
{
    std::path::Path::new(path).file_name().map(|n| n.to_string_lossy().into_owned())
}

/// The path with every leading `/` taken off.
pub open spec fn trim_leading_slashes(path: Seq<char>) -> Seq<char>
    decreases path.len(),
{
    if path.len() > 0 && path[0] == '/' {
        trim_leading_slashes(path.drop_first())
    } else {
        path
    }
}

/// `path.trim_start_matches('/')`.
pub fn trim_start_slashes(path: &str) -> (r: String)
    ensures
        r@ == trim_leading_slashes(path@),
{
    let cs = crate::text::chars_of(path);
    let mut i: usize = 0;
    assert(cs@.skip(0) =~= cs@);
    while i < cs.len() && cs[i] == '/'
        invariant
            i <= cs.len(),
            trim_leading_slashes(path@) == trim_leading_slashes(cs@.skip(i as int)),
        decreases cs.len() - i,
    {
        assert(cs@.skip(i as int).drop_first() =~= cs@.skip(i + 1));
        i = i + 1;
    }
    let mut out: Vec<char> = Vec::new();
    let start = i;
    while i < cs.len()
        invariant
            start <= i <= cs.len(),
            out@ == cs@.subrange(start as int, i as int),
        decreases cs.len() - i,
    {
        out.push(cs[i]);
        assert(cs@.subrange(start as int, i + 1) =~= cs@.subrange(start as int, i as int).push(cs@[i as int]));
        i = i + 1;
    }
    assert(out@ =~= cs@.skip(start as int));
    crate::text::from_chars(out.as_slice())
}

/// Where `path` of the tree lies under the host directory `root`: the root
/// joined with the path less its leading slashes.
pub open spec fn host_path_of(root: Seq<char>, path: Seq<char>) -> Seq<char> {
    joined(root, trim_leading_slashes(path))
}

/// `root.join(path.trim_start_matches('/'))`.
pub fn host_path(root: &str, path: &str) -> (r: String)
    ensures
        r@ == host_path_of(root@, path@),
{
    let rel = trim_start_slashes(path);
    path_join(root, rel.as_str())
}


/// The last slash of a path is a slash, with none after it; a path without
/// one has -1.
pub proof fn lemma_last_slash(p: Seq<char>)
    ensures
        -1 <= last_slash(p) < p.len(),
        last_slash(p) >= 0 ==> p[last_slash(p)] == '/',
        forall|k: int| last_slash(p) < k < p.len() ==> p[k] != '/',
    decreases p.len(),
{
    if p.len() > 0 && p.last() != '/' {
        lemma_last_slash(p.drop_last());
        assert forall|k: int| last_slash(p) < k < p.len() implies p[k] != '/' by {
            if k < p.len() - 1 {
                assert(p.drop_last()[k] == p[k]);
            }
        }
    }
}

/// Cutting a path at a slash does not change the segments that start
/// before the cut.
pub proof fn lemma_segment_of_prefix(p: Seq<char>, m: int, i: int)
    requires
        0 <= i <= m,
        m == p.len() || (m < p.len() && p[m] == '/'),
    ensures
        segment_from(p.take(m), i) == segment_from(p, i),
    decreases m - i,
{
    if i < m && p[i] != '/' {
        lemma_segment_of_prefix(p, m, i + 1);
        assert(p.take(m)[i] == p[i]);
    } else if i < m {
        assert(p.take(m)[i] == p[i]);
    } else if m < p.len() {
        assert(segment_from(p, i) =~= Seq::<char>::empty());
        assert(segment_from(p.take(m), i) =~= Seq::<char>::empty());
    } else {
        assert(p.take(m) =~= p);
    }
}

/// The directory above a plain absolute path of two or more components is
/// plain absolute too.
pub proof fn lemma_plain_parent(p: Seq<char>)
    requires
        plain_absolute(p),
        last_slash(p) > 0,
    ensures
        plain_absolute(p.take(last_slash(p))),
{
    lemma_last_slash(p);
    let m = last_slash(p);
    let q = p.take(m);
    assert(segment_from(p, 1).len() > 0);
    assert(p[1] != '/');
    assert(m >= 2);
    assert forall|j: int| 1 <= j <= q.len() && q[j - 1] == '/' implies {
        &&& #[trigger] segment_from(q, j).len() > 0
        &&& segment_from(q, j) != seq!['.']
        &&& segment_from(q, j) != seq!['.', '.']
    } by {
        assert(p[j - 1] == '/');
        lemma_segment_of_prefix(p, m, j);
        assert(segment_from(p, j).len() > 0);
    }
}

} // verus!
