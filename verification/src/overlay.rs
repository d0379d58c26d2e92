//! The overlay of one directory (such as `/usr/bin`): the snapshot of the
//! real directory plus the files added since, eager (with content) or lazy
//! (listed with size and mode, content to come). Mounting, the bypass
//! descriptor and the host I/O are the caller's.

use vstd::prelude::*;
use crate::paths::{joined, path_join};
use crate::strmap::StrMap;
use crate::text::{clone_bytes, sort_unique, strictly_sorted, views};

verus! {

/// One file of the overlay.
#[derive(Clone)]
pub struct Entry {
    /// File permissions.
    pub mode: u32,
    /// File content; `None` while the file is lazy.
    pub content: Option<Vec<u8>>,
    /// The size that `stat` reports: the content's length for an eager file,
    /// the announced size for a lazy one.
    pub size: u64,
    /// Whether the file was added, not part of the snapshot.
    pub added: bool,
}

/// What the entry's content is, by its bytes.
pub open spec fn entry_content(e: Entry) -> Option<Seq<u8>> {
    match e.content {
        Some(c) => Some(c@),
        None => None,
    }
}

/// The overlay of one directory.
pub struct Overlay {
    /// The directory the overlay is mounted over.
    pub mount_path: String,
    /// Where written content is kept on the real filesystem.
    pub writable_dir: String,
    /// Every file visible through the overlay, by name within the directory.
    pub files: StrMap<Entry>,
}

impl Overlay {
    /// The files visible through the overlay, by name within the directory.
    pub open spec fn files(&self) -> Map<Seq<char>, Entry> {
        self.files@
    }

    /// An overlay of `mount_path` without any file yet.
    pub fn new(mount_path: &str, writable_dir: &str) -> (o: Overlay)
        ensures
            o.mount_path@ == mount_path@,
            o.writable_dir@ == writable_dir@,
            o.files() == Map::<Seq<char>, Entry>::empty(),
    {
        Overlay {
            mount_path: mount_path.to_owned(),
            writable_dir: writable_dir.to_owned(),
            files: StrMap::new(),
        }
    }

    /// Records the regular files read from the real directory before the
    /// mount: each becomes an eager, non-added entry of mode 0o755 (a later
    /// file of the same name replaces an earlier one).
    pub fn snapshot(&mut self, files: Vec<(String, Vec<u8>)>)
        ensures
            final(self).mount_path == old(self).mount_path,
            final(self).writable_dir == old(self).writable_dir,
            final(self).files() == snapshot_files(old(self).files(), files@),
    {
        let ghost all = files@;
        let ghost start = self.files();
        for entry in it: files.into_iter()
            invariant
                it.seq() == all,
                self.mount_path == old(self).mount_path,
                self.writable_dir == old(self).writable_dir,
                self.files() == snapshot_files(start, all.take(it.index() as int)),
        {
            let ghost k = it.index() as int;
            let (name, content) = entry;
            let size = content.len() as u64;
            self.files.insert(name, Entry { mode: 0o755, content: Some(content), size, added: false });
            assert(all.take(k + 1).drop_last() =~= all.take(k));
        }
        assert(all.take(all.len() as int) =~= all);
    }

    /// Adds a file with its content, available at once.
    pub fn put(&mut self, name: &str, content: Vec<u8>, mode: u32)
        ensures
            final(self).mount_path == old(self).mount_path,
            final(self).writable_dir == old(self).writable_dir,
            final(self).files() == old(self).files().insert(
                name@,
                Entry { mode, content: Some(content), size: content@.len() as u64, added: true },
            ),
    {
        let size = content.len() as u64;
        self.files.insert(name.to_owned(), Entry { mode, content: Some(content), size, added: true });
    }

    /// Adds a lazy file: listed with its size and mode, without content.
    pub fn add_lazy(&mut self, name: &str, size: u64, mode: u32)
        ensures
            final(self).mount_path == old(self).mount_path,
            final(self).writable_dir == old(self).writable_dir,
            final(self).files() == old(self).files().insert(
                name@,
                Entry { mode, content: None, size, added: true },
            ),
    {
        self.files.insert(name.to_owned(), Entry { mode, content: None, size, added: true });
    }

    /// Gives a file its content (once fetched); its size becomes the
    /// content's length. Nothing happens if there is no such file.
    pub fn fill(&mut self, name: &str, content: Vec<u8>)
        ensures
            final(self).mount_path == old(self).mount_path,
            final(self).writable_dir == old(self).writable_dir,
            old(self).files().contains_key(name@) ==> final(self).files() == old(self).files().insert(
                name@,
                Entry {
                    content: Some(content),
                    size: content@.len() as u64,
                    ..old(self).files()[name@]
                },
            ),
            !old(self).files().contains_key(name@) ==> final(self).files() == old(self).files(),
    {
        match self.files.remove(name) {
            Some(entry) => {
                let size = content.len() as u64;
                let updated = Entry { mode: entry.mode, content: Some(content), size, added: entry.added };
                self.files.insert(name.to_owned(), updated);
                assert(self.files() =~= old(self).files().insert(name@, updated));
            },
            None => {
                assert(self.files() =~= old(self).files());
            },
        }
    }

    /// Removes a file.
    pub fn remove(&mut self, name: &str)
        ensures
            final(self).mount_path == old(self).mount_path,
            final(self).writable_dir == old(self).writable_dir,
            final(self).files() == old(self).files().remove(name@),
    {
        self.files.remove(name);
    }

    /// Whether the file exists.
    pub fn file_exists(&self, name: &str) -> (b: bool)
        ensures
            b == self.files().contains_key(name@),
    {
        self.files.contains_key(name)
    }

    /// The file's content: `None` if there is no such file, `Some(None)` if
    /// it is lazy, `Some(Some(bytes))` otherwise.
    pub fn read(&self, name: &str) -> (r: Option<Option<Vec<u8>>>)
        ensures
            match r {
                None => !self.files().contains_key(name@),
                Some(c) => self.files().contains_key(name@) && match c {
                    None => entry_content(self.files()[name@]) == None::<Seq<u8>>,
                    Some(bytes) => entry_content(self.files()[name@]) == Some(bytes@),
                },
            },
    {
        match self.files.get(name) {
            Some(entry) => match &entry.content {
                Some(c) => Some(Some(clone_bytes(c))),
                None => Some(None),
            },
            None => None,
        }
    }

    /// The file's size and mode.
    pub fn stat(&self, name: &str) -> (r: Option<(u64, u32)>)
        ensures
            match r {
                None => !self.files().contains_key(name@),
                Some(sm) => self.files().contains_key(name@) && sm == (
                    self.files()[name@].size,
                    self.files()[name@].mode,
                ),
            },
    {
        match self.files.get(name) {
            Some(entry) => Some((entry.size, entry.mode)),
            None => None,
        }
    }

    /// Every file name, sorted.
    pub fn list(&self) -> (names: Vec<String>)
        ensures
            strictly_sorted(views(names@)),
            views(names@).to_set() == self.files().dom(),
    {
        let keys = self.files.keys();
        sort_unique(keys)
    }

    /// Whether the file exists without content yet.
    pub fn is_lazy(&self, name: &str) -> (b: bool)
        ensures
            b == (self.files().contains_key(name@) && self.files()[name@].content is None),
    {
        match self.files.get(name) {
            Some(entry) => entry.content.is_none(),
            None => false,
        }
    }

    /// Where a file's content is kept on the real filesystem: the writable
    /// directory joined with the name.
    pub fn ext4_path(&self, name: &str) -> (p: String)
        ensures
            p@ == joined(self.writable_dir@, name@),
    {
        path_join(self.writable_dir.as_str(), name)
    }
}

/// The files after a snapshot recorded `read` (in order) over `files`.
pub open spec fn snapshot_files(files: Map<Seq<char>, Entry>, read: Seq<(String, Vec<u8>)>) -> Map<
    Seq<char>,
    Entry,
>
    decreases read.len(),
{
    if read.len() == 0 {
        files
    } else {
        let (name, content) = read.last();
        snapshot_files(files, read.drop_last()).insert(
            name@,
            Entry { mode: 0o755, content: Some(content), size: content@.len() as u64, added: false },
        )
    }
}


/// A file put into the overlay exists, reads back as put, stats as its
/// length and mode, and is not lazy.
pub proof fn lemma_put_then_read(files: Map<Seq<char>, Entry>, name: Seq<char>, content: Vec<u8>, mode: u32)
    ensures
        ({
            let after = files.insert(
                name,
                Entry { mode, content: Some(content), size: content@.len() as u64, added: true },
            );
            &&& after.contains_key(name)
            &&& entry_content(after[name]) == Some(content@)
            &&& (after[name].size, after[name].mode) == (content@.len() as u64, mode)
            &&& !(after[name].content is None)
        }),
{
}

/// A lazy file exists with the announced size and mode, is lazy, and reads
/// as no content yet.
pub proof fn lemma_lazy_file_has_no_content(files: Map<Seq<char>, Entry>, name: Seq<char>, size: u64, mode: u32)
    ensures
        ({
            let after = files.insert(name, Entry { mode, content: None, size, added: true });
            &&& after.contains_key(name)
            &&& after[name].content is None
            &&& entry_content(after[name]) == None::<Seq<u8>>
            &&& (after[name].size, after[name].mode) == (size, mode)
        }),
{
}

/// Filling a file gives it content: it is no longer lazy, it reads back as
/// filled, its size is the content's length and its mode stays.
pub proof fn lemma_fill_gives_content(files: Map<Seq<char>, Entry>, name: Seq<char>, content: Vec<u8>)
    requires
        files.contains_key(name),
    ensures
        ({
            let after = files.insert(
                name,
                Entry { content: Some(content), size: content@.len() as u64, ..files[name] },
            );
            &&& after.contains_key(name)
            &&& !(after[name].content is None)
            &&& entry_content(after[name]) == Some(content@)
            &&& after[name].size == content@.len() as u64
            &&& after[name].mode == files[name].mode
        }),
{
}

/// A removed file no longer exists; the others are untouched.
pub proof fn lemma_remove_makes_file_disappear(files: Map<Seq<char>, Entry>, name: Seq<char>)
    ensures
        !files.remove(name).contains_key(name),
        forall|other: Seq<char>| other != name && files.contains_key(other) ==> #[trigger] files.remove(name).contains_key(other)
            && files.remove(name)[other] == files[other],
{
}

/// The snapshot holds a file for each name read, with the content last
/// read under that name.
pub proof fn lemma_snapshot_has_every_file(files: Map<Seq<char>, Entry>, read: Seq<(String, Vec<u8>)>, i: int)
    requires
        0 <= i < read.len(),
        forall|j: int| i < j < read.len() ==> (#[trigger] read[j]).0@ != read[i].0@,
    ensures
        snapshot_files(files, read).contains_key(read[i].0@),
        entry_content(snapshot_files(files, read)[read[i].0@]) == Some(read[i].1@),
        !snapshot_files(files, read)[read[i].0@].added,
    decreases read.len(),
{
    if i < read.len() - 1 {
        let p = read.drop_last();
        assert forall|j: int| i < j < p.len() implies (#[trigger] p[j]).0@ != p[i].0@ by {
            assert(p[j] == read[j]);
        }
        lemma_snapshot_has_every_file(files, p, i);
        assert(read.last().0@ != read[i].0@);
    }
}

} // verus!
