//! The layers that the filesystem tree stacks: the base template (a
//! read-only host directory), the add-in layers (files pushed in by the
//! control plane, held in memory) and the writable layer (a host directory
//! that takes every write). A path resolves to the first layer that has it,
//! in the order writable, add-ins, base.
//!
//! The host layers are directories on the real filesystem: what is in them
//! is read by the caller; this module says where a path lies in them.

use vstd::prelude::*;
use crate::paths::{
    dir_of_component, host_path, host_path_of, last_slash, lemma_last_slash, lemma_plain_parent,
    lemma_segment_of_prefix, path_file_name, path_join, path_parent, plain_absolute, segment_from,
    std_path_file_name, joined, std_path_parent,
};
use crate::strmap::StrMap;
use crate::text::{chars_of, clone_bytes, clone_strings, contains_str, views};

verus! {

#[verifier::external_type_specification]
#[verifier::external_body]
pub struct ExSystemTime(std::time::SystemTime);

#[verifier::external_type_specification]
#[verifier::external_body]
pub struct ExIoError(std::io::Error);

/// `std::time::SystemTime::now`: the current time. Nothing is claimed of it.
#[verifier::external_body]
fn system_time_now() -> std::time::SystemTime {
    std::time::SystemTime::now()
}

/// Metadata of a file or directory.
#[derive(Debug, Clone, Copy)]
pub struct FileMeta {
    pub size: u64,
    pub mode: u32,
    pub is_dir: bool,
    pub modified: std::time::SystemTime,
}

impl FileMeta {
    /// Metadata of a directory with the given mode, modified now.
    pub fn dir(mode: u32) -> (m: FileMeta)
        ensures
            m.size == 0,
            m.mode == mode,
            m.is_dir,
    {
        FileMeta { size: 0, mode, is_dir: true, modified: system_time_now() }
    }

    /// Metadata of a file of the given size and mode, modified now.
    pub fn file(size: u64, mode: u32) -> (m: FileMeta)
        ensures
            m.size == size,
            m.mode == mode,
            !m.is_dir,
    {
        FileMeta { size, mode, is_dir: false, modified: system_time_now() }
    }

    /// Metadata of an entry of a host directory: its length and kind as the
    /// host reports them, mode 0o755 for a directory and 0o644 for a file.
    pub fn host(len: u64, is_dir: bool, modified: std::time::SystemTime) -> (m: FileMeta)
        ensures
            m.size == len,
            m.is_dir == is_dir,
            m.mode == (if is_dir { 0o755u32 } else { 0o644u32 }),
            m.modified == modified,
    {
        FileMeta { size: len, mode: if is_dir { 0o755 } else { 0o644 }, is_dir, modified }
    }
}

/// A layer of the tree, seen by path.
pub trait Layer {
    /// Whether the layer has the path, as a file or a directory.
    fn path_exists(&self, path: &str) -> bool;

    /// The metadata of the path in this layer.
    fn metadata(&self, path: &str) -> Option<FileMeta>;

    /// The content of the file at the path in this layer.
    fn read(&self, path: &str) -> Option<Result<Vec<u8>, std::io::Error>>;

    /// The names in the directory at the path in this layer.
    fn readdir(&self, path: &str) -> Option<Vec<String>>;

    /// The layer's name.
    fn name(&self) -> &str;
}

// ─── BaseLayer: the read-only template directory ───

/// The base template: a read-only directory on the host.
pub struct BaseLayer {
    root: String,
}

impl BaseLayer {
    /// The host directory of the template.
    pub closed spec fn root(&self) -> Seq<char> {
        self.root@
    }

    /// The template rooted at `root`.
    pub fn new(root: &str) -> (l: BaseLayer)
        ensures
            l.root() == root@,
    {
        BaseLayer { root: root.to_owned() }
    }

    /// The host directory of the template.
    pub fn root_path(&self) -> (r: &str)
        ensures
            r@ == self.root(),
    {
        self.root.as_str()
    }

    /// Where `path` lies on the host.
    pub fn host_path(&self, path: &str) -> (p: String)
        ensures
            p@ == host_path_of(self.root(), path@),
    {
        host_path(self.root.as_str(), path)
    }
}

// ─── WritableLayer: takes every write from inside ───

/// The writable layer: a directory on the host that takes every write.
pub struct WritableLayer {
    root: String,
}

impl WritableLayer {
    /// The host directory of the layer.
    pub closed spec fn root(&self) -> Seq<char> {
        self.root@
    }

    /// The writable layer rooted at `root` (the caller creates the directory).
    pub fn new(root: &str) -> (l: WritableLayer)
        ensures
            l.root() == root@,
    {
        WritableLayer { root: root.to_owned() }
    }

    /// The host directory of the layer.
    pub fn root_path(&self) -> (r: &str)
        ensures
            r@ == self.root(),
    {
        self.root.as_str()
    }

    /// The path in the tree of a file found at `relative` below the layer's
    /// host directory: `/` joined with it.
    pub fn tree_path(relative: &str) -> (p: String)
        ensures
            p@ == joined("/"@, relative@),
    {
        path_join("/", relative)
    }

    /// Where `path` lies on the host.
    pub fn host_path(&self, path: &str) -> (p: String)
        ensures
            p@ == host_path_of(self.root(), path@),
    {
        host_path(self.root.as_str(), path)
    }

    /// The paths in the tree of the files written into this layer, given
    /// where a walk of its host directory found them (relative to it).
    pub fn written_paths(&self, found: &Vec<String>) -> (paths: Vec<String>)
        ensures
            views(paths@) == views(found@).map_values(|r: Seq<char>| joined("/"@, r)),
    {
        let mut paths: Vec<String> = Vec::new();
        let mut i: usize = 0;
        while i < found.len()
            invariant
                i <= found@.len(),
                views(paths@) == views(found@).take(i as int).map_values(|r: Seq<char>| joined("/"@, r)),
            decreases found.len() - i,
        {
            let ghost before = paths@;
            let p = WritableLayer::tree_path(found[i].as_str());
            paths.push(p);
            assert(views(paths@) =~= views(before).push(p@));
            assert(views(found@).take(i + 1).map_values(|r: Seq<char>| joined("/"@, r)) =~= views(
                found@,
            ).take(i as int).map_values(|r: Seq<char>| joined("/"@, r)).push(p@));
            i = i + 1;
        }
        assert(views(found@).take(found@.len() as int) =~= views(found@));
        paths
    }

    /// What a listing of a directory of this layer stands for: the names, or
    /// nothing at all when the directory is empty.
    pub fn listing(names: Vec<String>) -> (r: Option<Vec<String>>)
        ensures
            names@.len() == 0 ==> r is None,
            names@.len() > 0 ==> r == Some(names),
    {
        if names.len() == 0 {
            None
        } else {
            Some(names)
        }
    }
}

// ─── AddInLayer: files pushed in by the control plane ───

/// A file of an add-in layer: its bytes and metadata.
struct AddInFile {
    content: Vec<u8>,
    meta: FileMeta,
}

/// The files of one add-in, pushed in by the control plane, and the
/// directories that their paths imply.
pub struct AddInLayer {
    addin_id: String,
    files: StrMap<AddInFile>,
    dirs: StrMap<Vec<String>>,
}

/// The name of the final component of `p`, or nothing.
pub open spec fn name_or_empty(p: Seq<char>) -> Seq<char> {
    match std_path_file_name(p) {
        Some(n) => n,
        None => Seq::empty(),
    }
}

/// The directories that a file path implies, from the nearest up: each with
/// the name of its child on the way to the file. The walk goes from parent
/// to parent and stops before an empty parent, or after the root `/`.
pub open spec fn parent_links(p: Seq<char>) -> Seq<(Seq<char>, Seq<char>)>
    decreases p.len(),
{
    match std_path_parent(p) {
        None => Seq::empty(),
        Some(d) => if d.len() == 0 {
            Seq::empty()
        } else if d == seq!['/'] || d.len() >= p.len() {
            seq![(d, name_or_empty(p))]
        } else {
            seq![(d, name_or_empty(p))] + parent_links(d)
        },
    }
}

/// `dirs` with `child` listed in directory `dir` (appended if new).
pub open spec fn add_link(
    dirs: Map<Seq<char>, Seq<Seq<char>>>,
    dir: Seq<char>,
    child: Seq<char>,
) -> Map<Seq<char>, Seq<Seq<char>>> {
    let entries = if dirs.contains_key(dir) {
        dirs[dir]
    } else {
        Seq::empty()
    };
    dirs.insert(dir, if entries.contains(child) { entries } else { entries.push(child) })
}

/// `dirs` with every link listed, in order.
pub open spec fn add_links(
    dirs: Map<Seq<char>, Seq<Seq<char>>>,
    links: Seq<(Seq<char>, Seq<char>)>,
) -> Map<Seq<char>, Seq<Seq<char>>>
    decreases links.len(),
{
    if links.len() == 0 {
        dirs
    } else {
        add_links(add_link(dirs, links[0].0, links[0].1), links.drop_first())
    }
}

impl AddInLayer {
    /// No directory of the layer lists a name twice.
    #[verifier::type_invariant]
    spec fn listings_distinct(&self) -> bool {
        forall|d: Seq<char>| #[trigger] self.dirs@.contains_key(d) ==> views(self.dirs@[d]@).no_duplicates()
    }

    /// The add-in's id, also the layer's name.
    pub closed spec fn id(&self) -> Seq<char> {
        self.addin_id@
    }

    /// The files: path to content and metadata.
    pub closed spec fn files_view(&self) -> Map<Seq<char>, (Seq<u8>, FileMeta)> {
        self.files@.map_values(|f: AddInFile| (f.content@, f.meta))
    }

    /// The directories: path to the names listed in it, in the order they came.
    pub closed spec fn dirs_view(&self) -> Map<Seq<char>, Seq<Seq<char>>> {
        self.dirs@.map_values(|v: Vec<String>| views(v@))
    }

    /// An empty layer for the add-in `addin_id`.
    pub fn new(addin_id: &str) -> (l: AddInLayer)
        ensures
            l.id() == addin_id@,
            l.files_view() == Map::<Seq<char>, (Seq<u8>, FileMeta)>::empty(),
            l.dirs_view() == Map::<Seq<char>, Seq<Seq<char>>>::empty(),
    {
        let l = AddInLayer { addin_id: addin_id.to_owned(), files: StrMap::new(), dirs: StrMap::new() };
        assert(l.files_view() =~= Map::<Seq<char>, (Seq<u8>, FileMeta)>::empty());
        assert(l.dirs_view() =~= Map::<Seq<char>, Seq<Seq<char>>>::empty());
        l
    }

    /// Puts a file into the layer, with its bytes, and lists it (and each of
    /// its parent directories) in the directory above it. For a plain
    /// absolute path, every directory on the way down, from `/`, then lists
    /// the next component.
    pub fn put_file(&mut self, path: &str, content: Vec<u8>, mode: u32)
        ensures
            final(self).id() == old(self).id(),
            final(self).files_view().contains_key(path@),
            final(self).files_view()[path@].0 == content@,
            final(self).files_view()[path@].1.size == content@.len(),
            final(self).files_view()[path@].1.mode == mode,
            !final(self).files_view()[path@].1.is_dir,
            final(self).files_view().remove(path@) == old(self).files_view().remove(path@),
            final(self).dirs_view() == add_links(old(self).dirs_view(), parent_links(path@)),
            plain_absolute(path@) ==> ancestors_list(final(self).dirs_view(), path@),
    {
        proof {
            use_type_invariant(&*self);
        }
        let size = content.len() as u64;
        let ghost c = content@;
        let file = AddInFile { content, meta: FileMeta::file(size, mode) };
        let mut files = StrMap::new();
        std::mem::swap(&mut files, &mut self.files);
        files.insert(path.to_owned(), file);
        self.files = files;
        assert(self.files_view() =~= old(self).files_view().insert(path@, (c, file.meta)));
        assert(self.files_view().remove(path@) =~= old(self).files_view().remove(path@));
        self.register_parent_dirs(path);
    }

    /// Lists `child` in directory `dir`, unless it is listed there already.
    fn add_dir_entry(&mut self, dir: &str, child: &str)
        ensures
            final(self).id() == old(self).id(),
            final(self).files_view() == old(self).files_view(),
            final(self).dirs_view() == add_link(old(self).dirs_view(), dir@, child@),
    {
        proof {
            use_type_invariant(&*self);
        }
        let mut dirs = StrMap::new();
        std::mem::swap(&mut dirs, &mut self.dirs);
        let mut entries = match dirs.remove(dir) {
            Some(v) => v,
            None => Vec::new(),
        };
        let ghost before = views(entries@);
        assert(before == (if old(self).dirs_view().contains_key(dir@) {
            old(self).dirs_view()[dir@]
        } else {
            Seq::<Seq<char>>::empty()
        }));
        assert(before.no_duplicates()) by {
            if !old(self).dirs_view().contains_key(dir@) {
                assert(before =~= Seq::<Seq<char>>::empty());
            }
        }
        if !contains_str(&entries, child) {
            let c = child.to_owned();
            entries.push(c);
            assert(views(entries@) =~= before.push(child@));
        }
        assert(views(entries@).no_duplicates());
        let ghost entries_v = entries;
        let ghost after = entries;
        dirs.insert(dir.to_owned(), entries);
        assert forall|d: Seq<char>| #[trigger] dirs@.contains_key(d) implies views(dirs@[d]@).no_duplicates() by {
            if d != dir@ {
                assert(old(self).dirs@.contains_key(d));
            } else {
                assert(dirs@[d] == entries_v);
            }
        }
        self.dirs = dirs;
        assert(self.dirs_view() =~= add_link(old(self).dirs_view(), dir@, child@));
    }

    /// Lists each directory on the way up from `file_path` in its parent.
    fn register_parent_dirs(&mut self, file_path: &str)
        ensures
            final(self).id() == old(self).id(),
            final(self).files_view() == old(self).files_view(),
            final(self).dirs_view() == add_links(old(self).dirs_view(), parent_links(file_path@)),
            plain_absolute(file_path@) ==> ancestors_list(final(self).dirs_view(), file_path@),
    {
        let mut child_name = match path_file_name(file_path) {
            Some(n) => n,
            None => String::new(),
        };
        let mut current = path_parent(file_path);
        let ghost whole = file_path@;
        let ghost mut p = file_path@;
        assert(child_name@ == name_or_empty(p));
        assert(whole.take(whole.len() as int) =~= whole);
        while current.is_some()
            invariant_except_break
                match current {
                    Some(d) => std_path_parent(p) == Some(d@) && d@.len() < p.len(),
                    None => std_path_parent(p) == None::<Seq<char>>,
                },
                add_links(old(self).dirs_view(), parent_links(file_path@)) == add_links(
                    self.dirs_view(),
                    parent_links(p),
                ),
                plain_absolute(whole) ==> {
                    &&& plain_absolute(p)
                    &&& p.len() <= whole.len()
                    &&& p == whole.take(p.len() as int)
                    &&& (p.len() == whole.len() || whole[p.len() as int] == '/')
                    &&& current.is_some()
                    &&& current.unwrap()@ == dir_of_component(p, last_slash(p) + 1)
                    &&& child_name@ == segment_from(p, last_slash(p) + 1)
                    &&& forall|k: int|
                        p.len() < k <= whole.len() && whole[k - 1] == '/' ==> #[trigger] lists(
                            self.dirs_view(),
                            dir_of_component(whole, k),
                            segment_from(whole, k),
                        )
                },
            invariant
                whole == file_path@,
                self.id() == old(self).id(),
                self.files_view() == old(self).files_view(),
                child_name@ == name_or_empty(p),
            ensures
                add_links(old(self).dirs_view(), parent_links(file_path@)) == self.dirs_view(),
                plain_absolute(whole) ==> ancestors_list(self.dirs_view(), whole),
            decreases p.len(),
        {
            let dir = current.unwrap();
            let dc = chars_of(dir.as_str());
            let ghost links = parent_links(p);
            let ghost before = self.dirs_view();
            let ghost ls = last_slash(p);
            proof {
                if plain_absolute(whole) {
                    lemma_last_slash(p);
                    assert(p[0] == '/');
                    assert(ls >= 0);
                    assert(segment_from(p, 1).len() > 0);
                    assert(p[1] != '/');
                    assert(ls != 1);
                    assert(dir@.len() > 0);
                }
            }
            if dc.len() == 0 {
                assert(links =~= Seq::<(Seq<char>, Seq<char>)>::empty());
                break;
            }
            self.add_dir_entry(dir.as_str(), child_name.as_str());
            proof {
                lemma_add_link_lists(before, dir@, child_name@);
                if plain_absolute(whole) {
                    lemma_segment_of_prefix(whole, p.len() as int, ls + 1);
                    assert(p.take(ls) =~= whole.take(ls));
                    assert(dir_of_component(whole, ls + 1) == dir@);
                    assert(segment_from(whole, ls + 1) == child_name@);
                    assert forall|k: int| ls + 1 <= k <= whole.len() && whole[k - 1] == '/' implies #[trigger] lists(
                        self.dirs_view(),
                        dir_of_component(whole, k),
                        segment_from(whole, k),
                    ) by {
                        if k > p.len() {
                            assert(lists(before, dir_of_component(whole, k), segment_from(whole, k)));
                        } else if k > ls + 1 {
                            assert(p[k - 1] == whole[k - 1]);
                        }
                    }
                }
            }
            if dc.len() == 1 && dc[0] == '/' {
                assert(dir@ =~= seq!['/']);
                assert(links =~= seq![(dir@, child_name@)]);
                assert(links.drop_first() =~= Seq::<(Seq<char>, Seq<char>)>::empty());
                assert(add_links(before, links) == add_links(self.dirs_view(), links.drop_first()));
                proof {
                    if plain_absolute(whole) {
                        assert(ls == 0) by {
                            if ls > 0 {
                                assert(dir@.len() == ls);
                            }
                        }
                    }
                }
                break;
            }
            assert(dir@ != seq!['/']) by {
                if dir@ == seq!['/'] {
                    assert(dc@.len() == 1 && dc@[0] == '/');
                }
            }
            proof {
                if plain_absolute(whole) {
                    assert(ls > 0);
                    lemma_plain_parent(p);
                    assert(dir@ == p.take(ls));
                    assert(dir@ =~= whole.take(dir@.len() as int));
                    assert(whole[ls] == p[ls]);
                }
            }
            assert(links.drop_first() =~= parent_links(dir@));
            assert(add_links(before, links) == add_links(self.dirs_view(), links.drop_first()));
            child_name = match path_file_name(dir.as_str()) {
                Some(n) => n,
                None => String::new(),
            };
            current = path_parent(dir.as_str());
            proof {
                p = dir@;
            }
        }
    }
}

/// Directory `d` is present and lists `c`.
pub open spec fn lists(dirs: Map<Seq<char>, Seq<Seq<char>>>, d: Seq<char>, c: Seq<char>) -> bool {
    dirs.contains_key(d) && dirs[d].contains(c)
}

/// Every directory on the way down to `p` is present and lists the next
/// component: `/` lists the first, and the path up to each later slash
/// lists the component after that slash.
pub open spec fn ancestors_list(dirs: Map<Seq<char>, Seq<Seq<char>>>, p: Seq<char>) -> bool {
    forall|k: int|
        1 <= k <= p.len() && p[k - 1] == '/' ==> #[trigger] lists(dirs, dir_of_component(p, k), segment_from(p, k))
}

/// Listing `child` in `dir` lists it there and keeps every other listing.
pub proof fn lemma_add_link_lists(dirs: Map<Seq<char>, Seq<Seq<char>>>, dir: Seq<char>, child: Seq<char>)
    ensures
        lists(add_link(dirs, dir, child), dir, child),
        forall|d: Seq<char>, c: Seq<char>| lists(dirs, d, c) ==> #[trigger] lists(add_link(dirs, dir, child), d, c),
{
    let e = if dirs.contains_key(dir) { dirs[dir] } else { Seq::empty() };
    if !e.contains(child) {
        assert(e.push(child)[e.len() as int] == child);
    }
    assert forall|d: Seq<char>, c: Seq<char>| lists(dirs, d, c) implies #[trigger] lists(add_link(dirs, dir, child), d, c) by {
        if d == dir && !e.contains(child) {
            let k = choose|k: int| 0 <= k < e.len() && e[k] == c;
            assert(e.push(child)[k] == c);
        }
    }
}

/// Listing links only adds: every directory stays, with every name it had.
pub proof fn lemma_add_links_keeps(dirs: Map<Seq<char>, Seq<Seq<char>>>, links: Seq<(Seq<char>, Seq<char>)>)
    ensures
        forall|d: Seq<char>, c: Seq<char>| lists(dirs, d, c) ==> #[trigger] lists(add_links(dirs, links), d, c),
    decreases links.len(),
{
    if links.len() > 0 {
        let next = add_link(dirs, links[0].0, links[0].1);
        let rest = links.drop_first();
        lemma_add_links_keeps(next, rest);
        assert(add_links(dirs, links) == add_links(next, rest));
        assert forall|d: Seq<char>, c: Seq<char>| lists(dirs, d, c) implies #[trigger] lists(add_links(dirs, links), d, c) by {
            if d == links[0].0 {
                let e = dirs[d];
                if !e.contains(links[0].1) {
                    let k = choose|k: int| 0 <= k < e.len() && e[k] == c;
                    assert(e.push(links[0].1)[k] == c);
                }
            }
            assert(lists(next, d, c));
        }
    }
}

/// Every directory on a file's way up is listed, with the name of its
/// child on that way.
pub proof fn lemma_add_links_lists_each(dirs: Map<Seq<char>, Seq<Seq<char>>>, links: Seq<(Seq<char>, Seq<char>)>)
    ensures
        forall|i: int| 0 <= i < links.len() ==> lists(add_links(dirs, links), (#[trigger] links[i]).0, links[i].1),
    decreases links.len(),
{
    if links.len() > 0 {
        let next = add_link(dirs, links[0].0, links[0].1);
        let rest = links.drop_first();
        lemma_add_links_lists_each(next, rest);
        lemma_add_links_keeps(next, rest);
        let e = if dirs.contains_key(links[0].0) { dirs[links[0].0] } else { Seq::empty() };
        if !e.contains(links[0].1) {
            assert(e.push(links[0].1)[e.len() as int] == links[0].1);
        }
        assert(lists(next, links[0].0, links[0].1));
        assert(add_links(dirs, links) == add_links(next, rest));
        assert(lists(add_links(next, rest), links[0].0, links[0].1));
        assert forall|i: int| 0 <= i < links.len() implies lists(add_links(dirs, links), (#[trigger] links[i]).0, links[i].1) by {
            if i > 0 {
                assert(links[i] == rest[i - 1]);
            }
        }
    }
}

/// Listing links that are all listed already changes nothing.
pub proof fn lemma_add_links_of_listed(dirs: Map<Seq<char>, Seq<Seq<char>>>, links: Seq<(Seq<char>, Seq<char>)>)
    requires
        forall|i: int| 0 <= i < links.len() ==> lists(dirs, (#[trigger] links[i]).0, links[i].1),
    ensures
        add_links(dirs, links) == dirs,
    decreases links.len(),
{
    if links.len() > 0 {
        let next = add_link(dirs, links[0].0, links[0].1);
        assert(lists(dirs, links[0].0, links[0].1));
        assert(next =~= dirs);
        let rest = links.drop_first();
        assert forall|i: int| 0 <= i < rest.len() implies lists(dirs, (#[trigger] rest[i]).0, rest[i].1) by {
            assert(rest[i] == links[i + 1]);
        }
        lemma_add_links_of_listed(dirs, rest);
    }
}

/// Putting a path again (after any other puts) leaves every directory
/// listing as it was: the directories above it already list their child.
pub proof fn lemma_put_file_again_keeps_listings(
    dirs: Map<Seq<char>, Seq<Seq<char>>>,
    between: Seq<Seq<char>>,
    path: Seq<char>,
)
    ensures
        ({
            let after = puts_after(add_links(dirs, parent_links(path)), between);
            add_links(after, parent_links(path)) == after
        }),
{
    let first = add_links(dirs, parent_links(path));
    lemma_add_links_lists_each(dirs, parent_links(path));
    lemma_puts_after_keeps(first, between);
    let after = puts_after(first, between);
    assert forall|i: int| 0 <= i < parent_links(path).len() implies lists(
        after,
        (#[trigger] parent_links(path)[i]).0,
        parent_links(path)[i].1,
    ) by {
        assert(lists(first, parent_links(path)[i].0, parent_links(path)[i].1));
    }
    lemma_add_links_of_listed(after, parent_links(path));
}

/// The directories after putting each of the paths, in order.
pub open spec fn puts_after(dirs: Map<Seq<char>, Seq<Seq<char>>>, paths: Seq<Seq<char>>) -> Map<
    Seq<char>,
    Seq<Seq<char>>,
>
    decreases paths.len(),
{
    if paths.len() == 0 {
        dirs
    } else {
        add_links(puts_after(dirs, paths.drop_last()), parent_links(paths.last()))
    }
}

proof fn lemma_puts_after_keeps(dirs: Map<Seq<char>, Seq<Seq<char>>>, paths: Seq<Seq<char>>)
    ensures
        forall|d: Seq<char>, c: Seq<char>| lists(dirs, d, c) ==> #[trigger] lists(puts_after(dirs, paths), d, c),
    decreases paths.len(),
{
    if paths.len() > 0 {
        lemma_puts_after_keeps(dirs, paths.drop_last());
        lemma_add_links_keeps(puts_after(dirs, paths.drop_last()), parent_links(paths.last()));
    }
}

/// A file put into an add-in layer makes each directory above it exist in
/// the layer, listing the next name on the way down.
pub proof fn lemma_put_file_makes_parent_dirs(layer_dirs: Map<Seq<char>, Seq<Seq<char>>>, path: Seq<char>)
    ensures
        forall|i: int|
            0 <= i < parent_links(path).len() ==> lists(
                add_links(layer_dirs, parent_links(path)),
                (#[trigger] parent_links(path)[i]).0,
                parent_links(path)[i].1,
            ),
{
    lemma_add_links_lists_each(layer_dirs, parent_links(path));
}

impl Layer for AddInLayer {
    /// The path is a file of the layer or a directory that one implies.
    fn path_exists(&self, path: &str) -> (b: bool)
        ensures
            b == (self.files_view().contains_key(path@) || self.dirs_view().contains_key(path@)),
    {
        self.files.contains_key(path) || self.dirs.contains_key(path)
    }

    /// A file's own metadata; for a directory, mode 0o755, size 0, now.
    fn metadata(&self, path: &str) -> (r: Option<FileMeta>)
        ensures
            self.files_view().contains_key(path@) ==> r == Some(self.files_view()[path@].1),
            !self.files_view().contains_key(path@) && self.dirs_view().contains_key(path@) ==> {
                &&& r is Some
                &&& r->0.is_dir
                &&& r->0.mode == 0o755
                &&& r->0.size == 0
            },
            !self.files_view().contains_key(path@) && !self.dirs_view().contains_key(path@) ==> r is None,
    {
        match self.files.get(path) {
            Some(f) => Some(f.meta),
            None => {
                if self.dirs.contains_key(path) {
                    Some(FileMeta::dir(0o755))
                } else {
                    None
                }
            },
        }
    }

    /// A file's bytes.
    fn read(&self, path: &str) -> (r: Option<Result<Vec<u8>, std::io::Error>>)
        ensures
            self.files_view().contains_key(path@) ==> (r matches Some(Ok(c)) && c@ == self.files_view()[path@].0),
            !self.files_view().contains_key(path@) ==> r is None,
    {
        match self.files.get(path) {
            Some(f) => Some(Ok(clone_bytes(&f.content))),
            None => None,
        }
    }

    /// The names listed in a directory of the layer.
    fn readdir(&self, path: &str) -> (r: Option<Vec<String>>)
        ensures
            self.dirs_view().contains_key(path@) ==> (r matches Some(v) && views(v@) == self.dirs_view()[path@]),
            !self.dirs_view().contains_key(path@) ==> r is None,
            r matches Some(v) ==> views(v@).no_duplicates(),
    {
        proof {
            use_type_invariant(self);
        }
        match self.dirs.get(path) {
            Some(v) => Some(clone_strings(v)),
            None => None,
        }
    }

    /// The add-in's id.
    fn name(&self) -> (n: &str)
        ensures
            n@ == self.id(),
    {
        self.addin_id.as_str()
    }
}

} // verus!
