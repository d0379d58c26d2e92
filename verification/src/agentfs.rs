//! The filesystem as three layers: files written from inside (a host
//! directory, on top), files that the control plane puts in (in memory,
//! keyed by absolute path) and the golden image (a host directory, below).
//! Reads go top down; a listing merges all three; writes go to the top.
//!
//! The two host directories are read by the caller, at the host paths that
//! `writable_path` and `base_path` give; what it found there is handed to
//! the functions here, which decide.

use vstd::prelude::*;
use crate::paths::{host_path, host_path_of, segment_from};
use crate::strmap::StrMap;
use crate::text::{
    chars_of, chars_starts_with, clone_bytes, from_chars, is_prefix, lemma_views_append_to_set,
    sort_unique, strictly_sorted, views,
};
use crate::tree::listing_names;

verus! {

/// A file put in by the control plane.
#[derive(Clone)]
pub struct File {
    pub content: Vec<u8>,
    pub mode: u32,
}

/// The path with every trailing `/` taken off.
pub open spec fn trim_trailing_slashes(p: Seq<char>) -> Seq<char>
    decreases p.len(),
{
    if p.len() > 0 && p.last() == '/' {
        trim_trailing_slashes(p.drop_last())
    } else {
        p
    }
}

/// The prefix that the paths under directory `p` start with.
pub open spec fn dir_prefix(p: Seq<char>) -> Seq<char> {
    trim_trailing_slashes(p).push('/')
}

/// The name of the direct child of the directory with prefix `prefix` on
/// the way to `key`, if `key` lies under that directory.
pub open spec fn child_of(key: Seq<char>, prefix: Seq<char>) -> Option<Seq<char>> {
    if is_prefix(prefix, key) && segment_from(key, prefix.len() as int).len() > 0 {
        Some(segment_from(key, prefix.len() as int))
    } else {
        None
    }
}

/// The direct children that the keys imply in the directory with prefix `prefix`.
pub open spec fn children_in(keys: Set<Seq<char>>, prefix: Seq<char>) -> Set<Seq<char>> {
    Set::new(|n: Seq<char>| exists|k: Seq<char>| keys.contains(k) && child_of(k, prefix) == Some(n))
}

/// Some key lies under the directory with prefix `prefix`.
pub open spec fn has_key_under(keys: Set<Seq<char>>, prefix: Seq<char>) -> bool {
    exists|k: Seq<char>| keys.contains(k) && is_prefix(prefix, k)
}

/// Whether a path exists: in the writable directory, as a put-in file or a
/// directory above one, or in the golden image.
pub open spec fn visible(files: Map<Seq<char>, File>, path: Seq<char>, in_writable: bool, in_base: bool) -> bool {
    in_writable || files.contains_key(path) || has_key_under(files.dom(), dir_prefix(path)) || in_base
}

/// The characters of `path` less its trailing slashes, then a `/`.
fn dir_prefix_chars(path: &str) -> (r: Vec<char>)
    ensures
        r@ == dir_prefix(path@),
{
    let mut cs = chars_of(path);
    while cs.len() > 0 && cs[cs.len() - 1] == '/'
        invariant
            trim_trailing_slashes(cs@) == trim_trailing_slashes(path@),
        decreases cs.len(),
    {
        let ghost before = cs@;
        cs.pop();
        assert(cs@ =~= before.drop_last());
    }
    cs.push('/');
    cs
}

/// The direct child of the prefix's directory on the way to `key`.
fn child_name(key: &Vec<char>, prefix: &Vec<char>) -> (r: Option<String>)
    ensures
        match r {
            Some(n) => child_of(key@, prefix@) == Some(n@),
            None => child_of(key@, prefix@) == None::<Seq<char>>,
        },
{
    if !chars_starts_with(key, prefix) {
        return None;
    }
    let start = prefix.len();
    let mut seg: Vec<char> = Vec::new();
    let mut j = start;
    while j < key.len() && key[j] != '/'
        invariant
            start <= j <= key.len(),
            seg@ + segment_from(key@, j as int) == segment_from(key@, start as int),
        decreases key.len() - j,
    {
        let ghost before = seg@;
        seg.push(key[j]);
        assert(seg@ + segment_from(key@, j + 1) =~= before + segment_from(key@, j as int));
        j = j + 1;
    }
    assert(segment_from(key@, j as int) =~= Seq::<char>::empty());
    assert(seg@ =~= segment_from(key@, start as int));
    if seg.len() == 0 {
        None
    } else {
        Some(from_chars(seg.as_slice()))
    }
}

/// The filesystem.
pub struct AgentFs {
    base_dir: String,
    addin_files: StrMap<File>,
    writable_dir: String,
}

impl AgentFs {
    /// The golden image's host directory.
    pub closed spec fn base_dir(&self) -> Seq<char> {
        self.base_dir@
    }

    /// The host directory that takes the writes from inside.
    pub closed spec fn writable_dir(&self) -> Seq<char> {
        self.writable_dir@
    }

    /// The files put in by the control plane, by absolute path.
    pub closed spec fn addin_files(&self) -> Map<Seq<char>, File> {
        self.addin_files@
    }

    /// A filesystem over the golden image `base_dir`, writing to
    /// `writable_dir` (which the caller creates), without add-in files.
    pub fn new(base_dir: &str, writable_dir: &str) -> (fs: AgentFs)
        ensures
            fs.base_dir() == base_dir@,
            fs.writable_dir() == writable_dir@,
            fs.addin_files() == Map::<Seq<char>, File>::empty(),
    {
        AgentFs { base_dir: base_dir.to_owned(), addin_files: StrMap::new(), writable_dir: writable_dir.to_owned() }
    }

    /// Puts a file in; it appears at once (replacing one at the same path).
    pub fn put(&mut self, path: &str, content: Vec<u8>, mode: u32)
        ensures
            final(self).base_dir() == old(self).base_dir(),
            final(self).writable_dir() == old(self).writable_dir(),
            final(self).addin_files() == old(self).addin_files().insert(path@, File { content, mode }),
    {
        self.addin_files.insert(path.to_owned(), File { content, mode });
    }

    /// Removes a file that was put in.
    pub fn remove(&mut self, path: &str)
        ensures
            final(self).base_dir() == old(self).base_dir(),
            final(self).writable_dir() == old(self).writable_dir(),
            final(self).addin_files() == old(self).addin_files().remove(path@),
    {
        self.addin_files.remove(path);
    }

    /// The paths of all files put in, each once, in no particular order.
    pub fn list_addin_files(&self) -> (paths: Vec<String>)
        ensures
            views(paths@).no_duplicates(),
            views(paths@).to_set() == self.addin_files().dom(),
    {
        self.addin_files.keys()
    }

    /// Where `path` lies in the golden image on the host.
    pub fn base_path(&self, path: &str) -> (p: String)
        ensures
            p@ == host_path_of(self.base_dir(), path@),
    {
        host_path(self.base_dir.as_str(), path)
    }

    /// Where `path` lies in the writable directory on the host.
    pub fn writable_path(&self, path: &str) -> (p: String)
        ensures
            p@ == host_path_of(self.writable_dir(), path@),
    {
        host_path(self.writable_dir.as_str(), path)
    }

    /// Whether some put-in file lies under directory `path`.
    fn addin_is_dir(&self, path: &str) -> (b: bool)
        ensures
            b == has_key_under(self.addin_files().dom(), dir_prefix(path@)),
    {
        let prefix = dir_prefix_chars(path);
        let n = self.addin_files.len();
        let mut i: usize = 0;
        while i < n
            invariant
                n == self.addin_files.key_seq().len(),
                self.addin_files.key_seq().to_set() == self.addin_files@.dom(),
                i <= n,
                prefix@ == dir_prefix(path@),
                forall|k: int| 0 <= k < i ==> !is_prefix(prefix@, #[trigger] self.addin_files.key_seq()[k]),
            decreases n - i,
        {
            let key = chars_of(self.addin_files.key_at(i).as_str());
            if chars_starts_with(&key, &prefix) {
                assert(self.addin_files.key_seq().contains(key@));
                return true;
            }
            i = i + 1;
        }
        assert forall|k: Seq<char>| self.addin_files@.dom().contains(k) implies !is_prefix(prefix@, k) by {
            assert(self.addin_files.key_seq().contains(k));
        }
        false
    }

    /// Whether `path` is a put-in file or a directory above one.
    fn addin_exists(&self, path: &str) -> (b: bool)
        ensures
            b == (self.addin_files().contains_key(path@) || has_key_under(self.addin_files().dom(), dir_prefix(path@))),
    {
        if self.addin_files.contains_key(path) {
            return true;
        }
        self.addin_is_dir(path)
    }

    /// Whether the path exists, given whether it exists in the writable
    /// directory and in the golden image.
    pub fn path_exists(&self, path: &str, in_writable: bool, in_base: bool) -> (b: bool)
        ensures
            b == visible(self.addin_files(), path@, in_writable, in_base),
            forall|k: Seq<char>|
                self.addin_files().contains_key(k) && is_prefix(dir_prefix(path@), k) ==> b,
    {
        if in_writable {
            return true;
        }
        if self.addin_exists(path) {
            return true;
        }
        in_base
    }

    /// The file's content, top layer first, given what reading it from the
    /// writable directory and from the golden image gave (`None` where it
    /// is not a regular file there).
    pub fn read(
        &self,
        path: &str,
        writable: Option<Result<Vec<u8>, std::io::Error>>,
        base: Option<Result<Vec<u8>, std::io::Error>>,
    ) -> (r: Option<Result<Vec<u8>, std::io::Error>>)
        ensures
            writable is Some ==> r == writable,
            writable is None && self.addin_files().contains_key(path@) ==> (r matches Some(Ok(c)) && c@
                == self.addin_files()[path@].content@),
            writable is None && !self.addin_files().contains_key(path@) ==> r == base,
    {
        if writable.is_some() {
            return writable;
        }
        match self.addin_files.get(path) {
            Some(file) => Some(Ok(clone_bytes(&file.content))),
            None => base,
        }
    }

    /// Whether the path is a directory, given whether it is one in the
    /// writable directory and in the golden image.
    pub fn is_dir(&self, path: &str, writable_is_dir: bool, base_is_dir: bool) -> (b: bool)
        ensures
            b == (writable_is_dir || has_key_under(self.addin_files().dom(), dir_prefix(path@)) || base_is_dir),
    {
        if writable_is_dir {
            return true;
        }
        if self.addin_is_dir(path) {
            return true;
        }
        base_is_dir
    }

    /// The names in directory `path`, merged over the three layers, each
    /// once, sorted. Given the listings of the writable directory and of the
    /// golden image (`None` where the directory could not be read).
    pub fn readdir(&self, path: &str, writable: Option<Vec<String>>, base: Option<Vec<String>>) -> (names: Vec<String>)
        ensures
            strictly_sorted(views(names@)),
            views(names@).to_set() == listing_names(writable) + children_in(
                self.addin_files().dom(),
                dir_prefix(path@),
            ) + listing_names(base),
    {
        let ghost w = listing_names(writable);
        let ghost b = listing_names(base);
        let mut all: Vec<String> = Vec::new();
        match writable {
            Some(names) => {
                all = names;
            },
            None => {},
        }
        assert(views(all@).to_set() =~= w);
        let prefix = dir_prefix_chars(path);
        let n = self.addin_files.len();
        let ghost keys = self.addin_files.key_seq();
        let mut i: usize = 0;
        while i < n
            invariant
                n == keys.len(),
                keys == self.addin_files.key_seq(),
                keys.to_set() == self.addin_files@.dom(),
                i <= n,
                prefix@ == dir_prefix(path@),
                views(all@).to_set() == w + children_in(keys.take(i as int).to_set(), prefix@),
            decreases n - i,
        {
            let key = chars_of(self.addin_files.key_at(i).as_str());
            let ghost before = all@;
            let child = child_name(&key, &prefix);
            proof {
                assert(keys.take(i + 1) =~= keys.take(i as int).push(key@));
                keys.take(i as int).lemma_push_to_set_commute(key@);
            }
            match child {
                Some(c) => {
                    let ghost cv = c@;
                    all.push(c);
                    proof {
                        assert(all@ =~= before + seq![c]);
                        lemma_views_append_to_set(before, seq![c]);
                        assert(views(seq![c]) =~= seq![cv]);
                        assert forall|y: Seq<char>| #[trigger] seq![cv].to_set().contains(y) <==> y == cv by {
                            if y == cv {
                                assert(seq![cv][0] == y);
                            }
                        }
                        let s0 = keys.take(i as int).to_set();
                        assert(children_in(s0.insert(key@), prefix@) =~= children_in(s0, prefix@).insert(cv));
                        assert(views(all@).to_set() =~= w + children_in(keys.take(i + 1).to_set(), prefix@));
                    }
                },
                None => {
                    proof {
                        let s0 = keys.take(i as int).to_set();
                        assert(children_in(s0.insert(key@), prefix@) =~= children_in(s0, prefix@));
                        assert(views(all@).to_set() =~= w + children_in(keys.take(i + 1).to_set(), prefix@));
                    }
                },
            }
            i = i + 1;
        }
        assert(keys.take(n as int) =~= keys);
        let ghost before = all@;
        match base {
            Some(names) => {
                let mut names = names;
                let ghost nv = names@;
                all.append(&mut names);
                proof {
                    lemma_views_append_to_set(before, nv);
                }
            },
            None => {},
        }
        assert(views(all@).to_set() =~= w + children_in(self.addin_files@.dom(), prefix@) + b);
        sort_unique(all)
    }

    /// The file's size, top layer first: given, for the writable directory,
    /// `Some(len)` when the path is a regular file there (`len` being what
    /// its metadata gave), and for the golden image what its metadata gave.
    pub fn size(&self, path: &str, writable: Option<Option<u64>>, base: Option<u64>) -> (r: Option<u64>)
        ensures
            writable matches Some(w) ==> r == w,
            writable is None && self.addin_files().contains_key(path@) ==> r == Some(
                self.addin_files()[path@].content@.len() as u64,
            ),
            writable is None && !self.addin_files().contains_key(path@) ==> r == base,
    {
        match writable {
            Some(w) => w,
            None => match self.addin_files.get(path) {
                Some(file) => Some(file.content.len() as u64),
                None => base,
            },
        }
    }

    /// The file's mode: 0o644 for what lies on the host, the put-in mode for
    /// an add-in file. Given whether the path exists in the writable
    /// directory and in the golden image.
    pub fn mode(&self, path: &str, in_writable: bool, in_base: bool) -> (r: Option<u32>)
        ensures
            in_writable ==> r == Some(0o644u32),
            !in_writable && self.addin_files().contains_key(path@) ==> r == Some(self.addin_files()[path@].mode),
            !in_writable && !self.addin_files().contains_key(path@) ==> r == (if in_base {
                Some(0o644u32)
            } else {
                None
            }),
    {
        if in_writable {
            return Some(0o644);
        }
        match self.addin_files.get(path) {
            Some(file) => {
                return Some(file.mode);
            },
            None => {},
        }
        if in_base {
            Some(0o644)
        } else {
            None
        }
    }
}


/// A file that the control plane puts in appears at once: it exists and
/// holds what was put, with its mode, whatever the host layers hold.
pub proof fn lemma_put_appears(files: Map<Seq<char>, File>, path: Seq<char>, f: File, in_writable: bool, in_base: bool)
    ensures
        visible(files.insert(path, f), path, in_writable, in_base),
        files.insert(path, f)[path] == f,
{
}

/// A put-in file that is removed disappears, unless the host layers have
/// the path or other put-in files lie under it.
pub proof fn lemma_remove_disappears(files: Map<Seq<char>, File>, path: Seq<char>)
    requires
        !has_key_under(files.remove(path).dom(), dir_prefix(path)),
    ensures
        !visible(files.remove(path), path, false, false),
{
}

/// Every directory above a put-in file is a directory of the filesystem.
pub proof fn lemma_parents_of_put_file_are_dirs(files: Map<Seq<char>, File>, path: Seq<char>, f: File, dir: Seq<char>)
    requires
        is_prefix(dir_prefix(dir), path),
    ensures
        has_key_under(files.insert(path, f).dom(), dir_prefix(dir)),
{
    assert(files.insert(path, f).dom().contains(path));
}

/// A put-in file is listed in the directory right above it: its name after
/// the directory's prefix, up to the next `/`.
pub proof fn lemma_put_file_is_listed(files: Map<Seq<char>, File>, path: Seq<char>, f: File, dir: Seq<char>)
    requires
        child_of(path, dir_prefix(dir)) is Some,
    ensures
        children_in(files.insert(path, f).dom(), dir_prefix(dir)).contains(child_of(path, dir_prefix(dir))->0),
{
    assert(files.insert(path, f).dom().contains(path));
}

/// Every directory above a put-in file exists, whatever the host layers
/// hold: a path is visible as soon as some put-in file lies under it.
pub proof fn lemma_dirs_above_put_files_exist(
    files: Map<Seq<char>, File>,
    file_path: Seq<char>,
    dir: Seq<char>,
    in_writable: bool,
    in_base: bool,
)
    requires
        files.contains_key(file_path),
        file_path.len() >= dir_prefix(dir).len(),
        file_path.take(dir_prefix(dir).len() as int) == dir_prefix(dir),
    ensures
        visible(files, dir, in_writable, in_base),
{
    assert(is_prefix(dir_prefix(dir), file_path));
}

/// Whether a path exists depends on the put-in files only through whether
/// it is one of them or has one under it: with neither, only the host
/// layers decide.
pub proof fn lemma_exists_without_addin_is_host(
    files: Map<Seq<char>, File>,
    path: Seq<char>,
    in_writable: bool,
    in_base: bool,
)
    requires
        !files.contains_key(path),
        forall|k: Seq<char>| files.contains_key(k) ==> !(k.len() >= dir_prefix(path).len() && k.take(dir_prefix(path).len() as int) == dir_prefix(path)),
    ensures
        visible(files, path, in_writable, in_base) == (in_writable || in_base),
{
    if has_key_under(files.dom(), dir_prefix(path)) {
        let k = choose|k: Seq<char>| files.dom().contains(k) && is_prefix(dir_prefix(path), k);
        assert(files.contains_key(k));
    }
}

} // verus!
