//! Materialization of add-in content by content address: a file's content
//! is cached locally on first access, taken from the local content store.
//! The host I/O (looking the paths up, reading, writing) is the caller's;
//! this module says where things are and what to do.

use vstd::prelude::*;
use crate::paths::{joined, path_join};
use crate::text::push_str;

verus! {

/// How to materialize a file.
pub struct MaterializePlan {
    /// Where the content is (or will be) cached; what materializing returns.
    pub cache_path: String,
    /// Where to read the content from first, when it is not cached yet.
    pub fetch_from: Option<String>,
}

/// A materializer over a local cache and a local content store.
pub struct Materializer {
    cache_dir: String,
    cas_dir: String,
}

/// The path of `relative_path` under content address `content_address` in `dir`.
pub open spec fn content_path(dir: Seq<char>, content_address: Seq<char>, relative_path: Seq<char>) -> Seq<char> {
    joined(joined(dir, content_address), relative_path)
}

impl Materializer {
    /// Where fetched files are cached.
    pub closed spec fn cache_dir(&self) -> Seq<char> {
        self.cache_dir@
    }

    /// The local content-addressable store.
    pub closed spec fn cas_dir(&self) -> Seq<char> {
        self.cas_dir@
    }

    /// A materializer caching in `cache_dir`, fetching from `cas_dir`.
    pub fn new(cache_dir: &str, cas_dir: &str) -> (m: Materializer)
        ensures
            m.cache_dir() == cache_dir@,
            m.cas_dir() == cas_dir@,
    {
        Materializer { cache_dir: cache_dir.to_owned(), cas_dir: cas_dir.to_owned() }
    }

    /// Where the file is cached.
    pub fn cache_path(&self, content_address: &str, relative_path: &str) -> (p: String)
        ensures
            p@ == content_path(self.cache_dir(), content_address@, relative_path@),
    {
        let d = path_join(self.cache_dir.as_str(), content_address);
        path_join(d.as_str(), relative_path)
    }

    /// Where the file is in the content store.
    pub fn cas_path(&self, content_address: &str, relative_path: &str) -> (p: String)
        ensures
            p@ == content_path(self.cas_dir(), content_address@, relative_path@),
    {
        let d = path_join(self.cas_dir.as_str(), content_address);
        path_join(d.as_str(), relative_path)
    }

    /// How to materialize a file, given whether its cache path and its path
    /// in the content store exist: a cached file is used as it is; otherwise
    /// it is read from the store and cached; if the store lacks it too, the
    /// error says so.
    pub fn plan(
        &self,
        content_address: &str,
        relative_path: &str,
        cache_exists: bool,
        cas_exists: bool,
    ) -> (r: Result<MaterializePlan, String>)
        ensures
            cache_exists ==> (r matches Ok(p) && p.cache_path@ == content_path(
                self.cache_dir(),
                content_address@,
                relative_path@,
            ) && p.fetch_from is None),
            !cache_exists && cas_exists ==> (r matches Ok(p) && p.cache_path@ == content_path(
                self.cache_dir(),
                content_address@,
                relative_path@,
            ) && (p.fetch_from matches Some(f) && f@ == content_path(
                self.cas_dir(),
                content_address@,
                relative_path@,
            ))),
            !cache_exists && !cas_exists ==> (r matches Err(msg) && msg@ == "content not found in CAS: "@
                + content_address@ + ":"@ + relative_path@),
    {
        let cache_path = self.cache_path(content_address, relative_path);
        if cache_exists {
            return Ok(MaterializePlan { cache_path, fetch_from: None });
        }
        if cas_exists {
            let from = self.cas_path(content_address, relative_path);
            return Ok(MaterializePlan { cache_path, fetch_from: Some(from) });
        }
        let mut msg = String::new();
        push_str(&mut msg, "content not found in CAS: ");
        push_str(&mut msg, content_address);
        push_str(&mut msg, ":");
        push_str(&mut msg, relative_path);
        assert(msg@ =~= "content not found in CAS: "@ + content_address@ + ":"@ + relative_path@);
        Err(msg)
    }
}

} // verus!
