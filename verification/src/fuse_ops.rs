//! The path index of the FUSE view: every file that a registered add-in
//! announces gets an entry (and a fresh inode) before its bytes are fetched;
//! an entry is marked materialized once its content sits in the local cache.
//! Locking and the FUSE callbacks are the caller's.

use vstd::prelude::*;
use crate::strmap::StrMap;
use crate::text::views;

verus! {

/// A file of the FUSE view.
#[derive(Debug, Clone)]
pub struct VirtualFile {
    /// Inode number.
    pub ino: u64,
    /// Display path (e.g. "bin/gh").
    pub path: String,
    /// Content address for the lazy fetch.
    pub content_address: String,
    /// Expected size (0 if unknown).
    pub size: u64,
    /// File mode.
    pub mode: u32,
    /// Whether the content sits in the local cache.
    pub materialized: bool,
    /// Where the cached content is, once materialized.
    pub cache_path: Option<String>,
}

/// A `VirtualFile` with its strings taken by their characters.
pub struct VirtualFileView {
    pub ino: u64,
    pub path: Seq<char>,
    pub content_address: Seq<char>,
    pub size: u64,
    pub mode: u32,
    pub materialized: bool,
    pub cache_path: Option<Seq<char>>,
}

impl View for VirtualFile {
    type V = VirtualFileView;

    open spec fn view(&self) -> VirtualFileView {
        VirtualFileView {
            ino: self.ino,
            path: self.path@,
            content_address: self.content_address@,
            size: self.size,
            mode: self.mode,
            materialized: self.materialized,
            cache_path: match self.cache_path {
                Some(p) => Some(p@),
                None => None,
            },
        }
    }
}

/// The index after registering `paths` (in order) with inodes numbered
/// from `first_ino`, the given content address and mode; a later path
/// replaces an earlier entry of the same path.
pub open spec fn registered(
    index: Map<Seq<char>, VirtualFileView>,
    content_address: Seq<char>,
    paths: Seq<Seq<char>>,
    first_ino: nat,
    mode: u32,
) -> Map<Seq<char>, VirtualFileView>
    decreases paths.len(),
{
    if paths.len() == 0 {
        index
    } else {
        let n = paths.len() - 1;
        registered(index, content_address, paths.take(n), first_ino, mode).insert(
            paths[n],
            VirtualFileView {
                ino: (first_ino + n) as u64,
                path: paths[n],
                content_address,
                size: 0,
                mode,
                materialized: false,
                cache_path: None,
            },
        )
    }
}

/// Every entry has its own inode, from 2 (1 is the root) up to below `next`.
pub open spec fn inodes_fresh(index: Map<Seq<char>, VirtualFileView>, next: nat) -> bool {
    &&& 2 <= next
    &&& forall|k: Seq<char>| #[trigger] index.contains_key(k) ==> 2 <= index[k].ino < next
    &&& forall|a: Seq<char>, b: Seq<char>|
        #[trigger] index.contains_key(a) && #[trigger] index.contains_key(b) && a != b ==> index[a].ino
            != index[b].ino
}

/// The entries of an index, taken by their views.
pub open spec fn entries_view(m: Map<Seq<char>, VirtualFile>) -> Map<Seq<char>, VirtualFileView> {
    m.map_values(|f: VirtualFile| f@)
}

/// The path index.
pub struct AgentFs {
    /// Virtual path to file entry.
    path_index: StrMap<VirtualFile>,
    next_ino: u64,
    /// Local cache directory for materialized files.
    cache_dir: String,
}

impl AgentFs {
    /// Every entry has its own inode, below the next one to be handed out.
    #[verifier::type_invariant]
    spec fn fresh_inodes(&self) -> bool {
        inodes_fresh(entries_view(self.path_index@), self.next_ino as nat)
    }

    /// The index, entries taken by their views.
    pub closed spec fn index(&self) -> Map<Seq<char>, VirtualFileView> {
        entries_view(self.path_index@)
    }

    /// The local cache directory.
    pub closed spec fn cache(&self) -> Seq<char> {
        self.cache_dir@
    }

    /// The inode that the next registered file gets.
    pub closed spec fn next_ino(&self) -> u64 {
        self.next_ino
    }

    /// An empty index; inodes start at 2.
    pub fn new(cache_dir: String) -> (fs: AgentFs)
        ensures
            fs.index() == Map::<Seq<char>, VirtualFileView>::empty(),
            fs.next_ino() == 2,
            fs.cache() == cache_dir@,
            inodes_fresh(fs.index(), fs.next_ino() as nat),
    {
        assert(entries_view(Map::<Seq<char>, VirtualFile>::empty()) =~= Map::<Seq<char>, VirtualFileView>::empty());
        AgentFs { path_index: StrMap::new(), next_ino: 2, cache_dir }
    }

    /// The index itself: path to entry.
    pub fn path_index(&self) -> (r: &StrMap<VirtualFile>)
        ensures
            entries_view(r@) == self.index(),
    {
        &self.path_index
    }

    /// The local cache directory.
    pub fn cache_dir(&self) -> (r: &str)
        ensures
            r@ == self.cache(),
    {
        self.cache_dir.as_str()
    }

    /// The inode that the next registered file gets.
    pub fn next_inode(&self) -> (r: u64)
        ensures
            r == self.next_ino(),
    {
        self.next_ino
    }

    /// Registers `paths` into `index`, numbering from `*next`.
    fn register_paths(
        index: &mut StrMap<VirtualFile>,
        next: &mut u64,
        content_address: &str,
        paths: &[String],
        mode: u32,
    )
        requires
            *old(next) + paths@.len() <= u64::MAX,
            inodes_fresh(entries_view(old(index)@), *old(next) as nat),
        ensures
            *final(next) == *old(next) + paths@.len(),
            entries_view(final(index)@) == registered(
                entries_view(old(index)@),
                content_address@,
                views(paths@),
                *old(next) as nat,
                mode,
            ),
            inodes_fresh(entries_view(final(index)@), *final(next) as nat),
    {
        let ghost start = *next as nat;
        let ghost ps = views(paths@);
        let ghost first = entries_view(index@);
        let mut i: usize = 0;
        assert(ps.take(0) =~= Seq::<Seq<char>>::empty());
        while i < paths.len()
            invariant
                i <= paths@.len(),
                ps == views(paths@),
                *next == start + i,
                start + paths@.len() <= u64::MAX,
                start == *old(next),
                first == entries_view(old(index)@),
                entries_view(index@) == registered(first, content_address@, ps.take(i as int), start, mode),
                inodes_fresh(entries_view(index@), *next as nat),
            decreases paths.len() - i,
        {
            let path = &paths[i];
            let ino = *next;
            *next = *next + 1;
            let ghost before = entries_view(index@);
            let entry = VirtualFile {
                ino,
                path: path.clone(),
                content_address: content_address.to_owned(),
                size: 0,
                mode,
                materialized: false,
                cache_path: None,
            };
            index.insert(path.clone(), entry);
            proof {
                let now = entries_view(index@);
                assert(ps.take(i + 1).take(i as int) =~= ps.take(i as int));
                assert(ps.take(i + 1)[i as int] == path@);
                assert(now =~= before.insert(path@, entry@));
                assert forall|k: Seq<char>| #[trigger] now.contains_key(k) implies 2 <= now[k].ino < *next by {
                    if k != path@ {
                        assert(before.contains_key(k));
                    }
                }
                assert forall|a: Seq<char>, b: Seq<char>|
                    #[trigger] now.contains_key(a) && #[trigger] now.contains_key(b) && a != b implies now[a].ino
                        != now[b].ino by {
                    if a != path@ {
                        assert(before.contains_key(a));
                    }
                    if b != path@ {
                        assert(before.contains_key(b));
                    }
                }
            }
            i = i + 1;
        }
        assert(ps.take(paths@.len() as int) =~= ps);
    }

    /// Announces an add-in's files: each binary (mode 0o755), then each
    /// library (mode 0o644), gets an entry with a fresh inode, size 0, not
    /// materialized. Inodes are handed out in that order, each once.
    pub fn register_addin_files(&mut self, content_address: &str, binaries: &[String], libraries: &[String])
        requires
            old(self).next_ino() + binaries@.len() + libraries@.len() <= u64::MAX,
        ensures
            final(self).cache() == old(self).cache(),
            final(self).next_ino() == old(self).next_ino() + binaries@.len() + libraries@.len(),
            final(self).index() == registered(
                registered(old(self).index(), content_address@, views(binaries@), old(self).next_ino() as nat, 0o755),
                content_address@,
                views(libraries@),
                (old(self).next_ino() + binaries@.len()) as nat,
                0o644,
            ),
            inodes_fresh(final(self).index(), final(self).next_ino() as nat),
    {
        proof {
            use_type_invariant(&*self);
        }
        let mut index = StrMap::new();
        std::mem::swap(&mut index, &mut self.path_index);
        let mut next = self.next_ino;
        Self::register_paths(&mut index, &mut next, content_address, binaries, 0o755);
        Self::register_paths(&mut index, &mut next, content_address, libraries, 0o644);
        self.next_ino = next;
        self.path_index = index;
    }

    /// Marks a file materialized: its content is at `cache_path` and is
    /// `size` bytes long. Nothing happens if there is no such entry.
    pub fn mark_materialized(&mut self, path: &str, cache_path: String, size: u64)
        ensures
            final(self).cache() == old(self).cache(),
            final(self).next_ino() == old(self).next_ino(),
            old(self).index().contains_key(path@) ==> final(self).index() == old(self).index().insert(
                path@,
                VirtualFileView {
                    materialized: true,
                    cache_path: Some(cache_path@),
                    size,
                    ..old(self).index()[path@]
                },
            ),
            !old(self).index().contains_key(path@) ==> final(self).index() == old(self).index(),
            inodes_fresh(final(self).index(), final(self).next_ino() as nat),
    {
        proof {
            use_type_invariant(&*self);
        }
        let ghost before = self.index();
        let mut index = StrMap::new();
        std::mem::swap(&mut index, &mut self.path_index);
        match index.remove(path) {
            Some(entry) => {
                let updated = VirtualFile {
                    ino: entry.ino,
                    path: entry.path,
                    content_address: entry.content_address,
                    size,
                    mode: entry.mode,
                    materialized: true,
                    cache_path: Some(cache_path),
                };
                index.insert(path.to_owned(), updated);
                let ghost now = entries_view(index@);
                assert(now =~= before.insert(path@, updated@));
                proof {
                    assert forall|k: Seq<char>| #[trigger] now.contains_key(k) implies 2 <= now[k].ino
                        < self.next_ino by {
                        assert(before.contains_key(k));
                    }
                    assert forall|a: Seq<char>, b: Seq<char>|
                        #[trigger] now.contains_key(a) && #[trigger] now.contains_key(b) && a != b implies now[a].ino
                            != now[b].ino by {
                        assert(before.contains_key(a));
                        assert(before.contains_key(b));
                    }
                }
            },
            None => {
                assert(entries_view(index@) =~= before);
            },
        }
        self.path_index = index;
    }
}

} // verus!
