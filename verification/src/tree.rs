//! The unified tree: the writable layer on top, then the add-in layers in
//! the order they were pushed, then the base template. Reads resolve top
//! down (the first layer that has the path wins); a directory listing merges
//! every layer. Writes always go to the writable layer.
//!
//! The writable and base layers are host directories: the caller looks the
//! path up in them (at the host paths that `writable()` and `base()` give)
//! and hands their answers to the functions here, which decide.

use vstd::prelude::*;
use crate::layer::{AddInLayer, BaseLayer, FileMeta, Layer, WritableLayer};
use crate::paths::joined;
use crate::text::{lemma_views_append_to_set, sort_unique, strictly_sorted, views};

verus! {

/// Whether the add-in layer has the path, as a file or a directory.
pub open spec fn addin_has(l: AddInLayer, path: Seq<char>) -> bool {
    l.files_view().contains_key(path) || l.dirs_view().contains_key(path)
}

/// The first add-in layer, from position `i` on, that has the path as a file.
pub open spec fn first_with_file(addins: Seq<AddInLayer>, path: Seq<char>, i: int) -> Option<int>
    decreases addins.len() - i,
{
    if i < 0 || i >= addins.len() {
        None
    } else if addins[i].files_view().contains_key(path) {
        Some(i)
    } else {
        first_with_file(addins, path, i + 1)
    }
}

/// The first add-in layer, from position `i` on, that has the path at all.
pub open spec fn first_with_path(addins: Seq<AddInLayer>, path: Seq<char>, i: int) -> Option<int>
    decreases addins.len() - i,
{
    if i < 0 || i >= addins.len() {
        None
    } else if addin_has(addins[i], path) {
        Some(i)
    } else {
        first_with_path(addins, path, i + 1)
    }
}

/// The names that the add-in layers list in the directory `path`.
pub open spec fn addin_dir_names(addins: Seq<AddInLayer>, path: Seq<char>) -> Set<Seq<char>>
    decreases addins.len(),
{
    if addins.len() == 0 {
        Set::empty()
    } else {
        let l = addins.last();
        addin_dir_names(addins.drop_last(), path) + if l.dirs_view().contains_key(path) {
            l.dirs_view()[path].to_set()
        } else {
            Set::empty()
        }
    }
}

/// The names of a host layer's listing, if it gave one.
pub open spec fn listing_names(l: Option<Vec<String>>) -> Set<Seq<char>> {
    match l {
        Some(v) => views(v@).to_set(),
        None => Set::empty(),
    }
}

/// Metadata that an add-in layer could give for the path: the file's own,
/// or that of a directory (mode 0o755, size 0).
pub open spec fn addin_meta(l: AddInLayer, path: Seq<char>, m: FileMeta) -> bool {
    if l.files_view().contains_key(path) {
        m == l.files_view()[path].1
    } else {
        m.is_dir && m.mode == 0o755 && m.size == 0
    }
}

/// The filesystem tree.
pub struct FsTree {
    writable: WritableLayer,
    addins: Vec<AddInLayer>,
    base: BaseLayer,
}

impl FsTree {
    /// The add-in layers, in resolution order.
    pub closed spec fn addins(&self) -> Seq<AddInLayer> {
        self.addins@
    }

    /// The writable layer's host directory.
    pub closed spec fn writable_root(&self) -> Seq<char> {
        self.writable.root()
    }

    /// The base template's host directory.
    pub closed spec fn base_root(&self) -> Seq<char> {
        self.base.root()
    }

    /// A tree of the base template and the writable layer, without add-ins.
    pub fn new(base: BaseLayer, writable: WritableLayer) -> (t: FsTree)
        ensures
            t.addins() == Seq::<AddInLayer>::empty(),
            t.base_root() == base.root(),
            t.writable_root() == writable.root(),
    {
        FsTree { writable, addins: Vec::new(), base }
    }

    /// The add-in layers, to push or remove layers while the tree serves.
    pub fn addin_handle(&mut self) -> (h: &mut Vec<AddInLayer>)
        ensures
            h@ == old(self).addins(),
            final(self).addins() == final(h)@,
            final(self).base_root() == old(self).base_root(),
            final(self).writable_root() == old(self).writable_root(),
    {
        &mut self.addins
    }

    /// The writable layer, where every write goes.
    pub fn writable(&self) -> (w: &WritableLayer)
        ensures
            w.root() == self.writable_root(),
    {
        &self.writable
    }

    /// The base template.
    pub fn base(&self) -> (b: &BaseLayer)
        ensures
            b.root() == self.base_root(),
    {
        &self.base
    }

    /// The paths of the files written during the task, given where a walk
    /// of the writable layer's host directory found them (relative to it).
    pub fn written_paths(&self, found: &Vec<String>) -> (paths: Vec<String>)
        ensures
            views(paths@) == views(found@).map_values(|r: Seq<char>| joined("/"@, r)),
    {
        self.writable.written_paths(found)
    }

    /// Whether the path exists in any layer, given whether it exists in the
    /// writable layer and in the base template.
    pub fn path_exists(&self, path: &str, in_writable: bool, in_base: bool) -> (b: bool)
        ensures
            b == (in_writable || first_with_path(self.addins(), path@, 0) is Some || in_base),
    {
        if in_writable {
            return true;
        }
        let mut i: usize = 0;
        while i < self.addins.len()
            invariant
                i <= self.addins@.len(),
                first_with_path(self.addins@, path@, 0) == first_with_path(self.addins@, path@, i as int),
            decreases self.addins.len() - i,
        {
            if self.addins[i].path_exists(path) {
                return true;
            }
            i = i + 1;
        }
        in_base
    }

    /// The metadata of the path from the first layer that has it, given
    /// the writable layer's and the base template's answers.
    pub fn metadata(&self, path: &str, writable: Option<FileMeta>, base: Option<FileMeta>) -> (r: Option<FileMeta>)
        ensures
            writable is Some ==> r == writable,
            writable is None ==> match first_with_path(self.addins(), path@, 0) {
                Some(i) => r is Some && addin_meta(self.addins()[i], path@, r->0),
                None => r == base,
            },
    {
        if writable.is_some() {
            return writable;
        }
        let mut i: usize = 0;
        while i < self.addins.len()
            invariant
                i <= self.addins@.len(),
                first_with_path(self.addins@, path@, 0) == first_with_path(self.addins@, path@, i as int),
                writable is None,
            decreases self.addins.len() - i,
        {
            let m = self.addins[i].metadata(path);
            if m.is_some() {
                return m;
            }
            i = i + 1;
        }
        base
    }

    /// The file's content from the first layer that has the file, given the
    /// writable layer's and the base template's answers.
    pub fn read(
        &self,
        path: &str,
        writable: Option<Result<Vec<u8>, std::io::Error>>,
        base: Option<Result<Vec<u8>, std::io::Error>>,
    ) -> (r: Option<Result<Vec<u8>, std::io::Error>>)
        ensures
            writable is Some ==> r == writable,
            writable is None ==> match first_with_file(self.addins(), path@, 0) {
                Some(i) => (r matches Some(Ok(c)) && c@ == self.addins()[i].files_view()[path@].0),
                None => r == base,
            },
    {
        if writable.is_some() {
            return writable;
        }
        let mut i: usize = 0;
        while i < self.addins.len()
            invariant
                i <= self.addins@.len(),
                first_with_file(self.addins@, path@, 0) == first_with_file(self.addins@, path@, i as int),
                writable is None,
            decreases self.addins.len() - i,
        {
            let r = self.addins[i].read(path);
            if r.is_some() {
                return r;
            }
            i = i + 1;
        }
        base
    }

    /// The directory's entries merged over every layer, each name once,
    /// sorted; `None` when no layer has the directory. Given the writable
    /// layer's and the base template's listings.
    pub fn readdir(&self, path: &str, writable: Option<Vec<String>>, base: Option<Vec<String>>) -> (r: Option<Vec<String>>)
        ensures
            (r is None) == (writable is None && base is None && addin_dir_names_found(self.addins(), path@) == false),
            r matches Some(v) ==> {
                &&& strictly_sorted(views(v@))
                &&& views(v@).to_set() == listing_names(writable) + addin_dir_names(self.addins(), path@) + listing_names(base)
            },
    {
        let ghost w = listing_names(writable);
        let ghost b = listing_names(base);
        let mut found_any = false;
        let mut all: Vec<String> = Vec::new();
        match writable {
            Some(names) => {
                found_any = true;
                all = names;
            },
            None => {},
        }
        assert(views(all@).to_set() =~= w);
        let mut i: usize = 0;
        while i < self.addins.len()
            invariant
                i <= self.addins@.len(),
                views(all@).to_set() == w + addin_dir_names(self.addins@.take(i as int), path@),
                found_any == (writable is Some || addin_dir_names_found(self.addins@.take(i as int), path@)),
            decreases self.addins.len() - i,
        {
            assert(self.addins@.take(i + 1).drop_last() =~= self.addins@.take(i as int));
            assert(self.addins@.take(i + 1).last() == self.addins@[i as int]);
            let ghost layer = self.addins@[i as int];
            let ghost before = all@;
            match self.addins[i].readdir(path) {
                Some(names) => {
                    found_any = true;
                    let mut names = names;
                    let ghost nv = names@;
                    all.append(&mut names);
                    proof {
                        lemma_views_append_to_set(before, nv);
                        assert(views(all@).to_set() =~= w + addin_dir_names(self.addins@.take(i + 1), path@));
                    }
                },
                None => {
                    assert(views(all@).to_set() =~= w + addin_dir_names(self.addins@.take(i + 1), path@));
                },
            }
            proof {
                let t = self.addins@.take(i + 1);
                if addin_dir_names_found(t, path@) {
                    let k = choose|k: int| 0 <= k < t.len() && (#[trigger] t[k]).dirs_view().contains_key(path@);
                    if k < i {
                        assert(self.addins@.take(i as int)[k] == t[k]);
                    }
                }
                if addin_dir_names_found(self.addins@.take(i as int), path@) {
                    let k = choose|k: int| 0 <= k < i && (#[trigger] self.addins@.take(i as int)[k]).dirs_view().contains_key(path@);
                    assert(t[k] == self.addins@.take(i as int)[k]);
                }
                if layer.dirs_view().contains_key(path@) {
                    assert(t[i as int] == layer);
                }
            }
            i = i + 1;
        }
        assert(self.addins@.take(self.addins@.len() as int) =~= self.addins@);
        let ghost before = all@;
        match base {
            Some(names) => {
                found_any = true;
                let mut names = names;
                let ghost nv = names@;
                all.append(&mut names);
                proof {
                    lemma_views_append_to_set(before, nv);
                }
            },
            None => {},
        }
        assert(views(all@).to_set() =~= w + addin_dir_names(self.addins@, path@) + b);
        if found_any {
            Some(sort_unique(all))
        } else {
            None
        }
    }
}

/// Whether some add-in layer has the directory.
pub open spec fn addin_dir_names_found(addins: Seq<AddInLayer>, path: Seq<char>) -> bool {
    exists|i: int| 0 <= i < addins.len() && (#[trigger] addins[i]).dirs_view().contains_key(path)
}


/// If some add-in layer from position `i` on has the path, the search finds
/// the first such layer, at or before it.
pub proof fn lemma_first_with_path_finds(addins: Seq<AddInLayer>, path: Seq<char>, i: int, k: int)
    requires
        0 <= i <= k < addins.len(),
        addin_has(addins[k], path),
    ensures
        first_with_path(addins, path, i) matches Some(j) && i <= j <= k && addin_has(addins[j], path),
    decreases k - i,
{
    if !addin_has(addins[i], path) {
        lemma_first_with_path_finds(addins, path, i + 1, k);
    }
}

/// If some add-in layer from position `i` on has the file, the search finds
/// the first such layer, at or before it.
pub proof fn lemma_first_with_file_finds(addins: Seq<AddInLayer>, path: Seq<char>, i: int, k: int)
    requires
        0 <= i <= k < addins.len(),
        addins[k].files_view().contains_key(path),
    ensures
        first_with_file(addins, path, i) matches Some(j) && i <= j <= k && addins[j].files_view().contains_key(path),
    decreases k - i,
{
    if !addins[i].files_view().contains_key(path) {
        lemma_first_with_file_finds(addins, path, i + 1, k);
    }
}

/// A path that any add-in layer has exists in the tree, whatever the host
/// layers hold; a file that any add-in layer has is read from the first
/// such layer unless the writable layer has it.
pub proof fn lemma_addin_paths_exist_in_tree(addins: Seq<AddInLayer>, path: Seq<char>, k: int)
    requires
        0 <= k < addins.len(),
        addin_has(addins[k], path),
    ensures
        first_with_path(addins, path, 0) is Some,
        addins[k].files_view().contains_key(path) ==> first_with_file(addins, path, 0) is Some,
{
    lemma_first_with_path_finds(addins, path, 0, k);
    if addins[k].files_view().contains_key(path) {
        lemma_first_with_file_finds(addins, path, 0, k);
    }
}


/// Every name that an add-in layer lists in a directory is among the names
/// that the tree's listing of that directory merges.
pub proof fn lemma_addin_dir_names_include(addins: Seq<AddInLayer>, path: Seq<char>, k: int, name: Seq<char>)
    requires
        0 <= k < addins.len(),
        addins[k].dirs_view().contains_key(path),
        addins[k].dirs_view()[path].contains(name),
    ensures
        addin_dir_names(addins, path).contains(name),
        addin_dir_names_found(addins, path),
    decreases addins.len(),
{
    if k < addins.len() - 1 {
        let p = addins.drop_last();
        assert(p[k] == addins[k]);
        lemma_addin_dir_names_include(p, path, k, name);
    }
}

} // verus!
