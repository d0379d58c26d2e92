use aether::materializer::Materializer;

#[test]
fn cached_file_is_used_as_is() {
    let m = Materializer::new("/var/cache/aether", "/var/lib/aether/cas");
    let plan = m.plan("sha256:abc", "bin/gh", true, true).unwrap();
    assert_eq!(plan.cache_path, "/var/cache/aether/sha256:abc/bin/gh");
    assert!(plan.fetch_from.is_none());
}

#[test]
fn uncached_file_is_fetched_from_store() {
    let m = Materializer::new("/var/cache/aether", "/var/lib/aether/cas");
    let plan = m.plan("sha256:abc", "bin/gh", false, true).unwrap();
    assert_eq!(plan.cache_path, "/var/cache/aether/sha256:abc/bin/gh");
    assert_eq!(plan.fetch_from.as_deref(), Some("/var/lib/aether/cas/sha256:abc/bin/gh"));
}

#[test]
fn missing_content_is_an_error() {
    let m = Materializer::new("/cache", "/cas");
    let err = m.plan("sha256:abc", "bin/gh", false, false).err().unwrap();
    assert_eq!(err, "content not found in CAS: sha256:abc:bin/gh");
}

#[test]
fn paths() {
    let m = Materializer::new("/cache", "/cas");
    assert_eq!(m.cache_path("ca", "lib/x.so"), "/cache/ca/lib/x.so");
    assert_eq!(m.cas_path("ca", "lib/x.so"), "/cas/ca/lib/x.so");
}

#[test]
fn absolute_relative_path_replaces_the_directory() {
    let m = Materializer::new("/cache", "/cas");
    assert_eq!(m.cache_path("ca", "/etc/passwd"), "/etc/passwd");
}
