use aether::fuse_ops::AgentFs;

#[test]
fn registered_files_get_fresh_inodes() {
    let mut fs = AgentFs::new("/var/cache/aether".to_string());
    fs.register_addin_files("sha256:abc", &["bin/gh".to_string()], &["lib/libgh.so".to_string(), "lib/x.so".to_string()]);
    let gh = fs.path_index().get("bin/gh").unwrap();
    assert_eq!((gh.ino, gh.mode, gh.size, gh.materialized), (2, 0o755, 0, false));
    assert_eq!(gh.content_address, "sha256:abc");
    assert_eq!(gh.path, "bin/gh");
    assert!(gh.cache_path.is_none());
    let lib = fs.path_index().get("lib/libgh.so").unwrap();
    assert_eq!((lib.ino, lib.mode), (3, 0o644));
    assert_eq!(fs.path_index().get("lib/x.so").unwrap().ino, 4);

    fs.register_addin_files("sha256:def", &["bin/rclone".to_string()], &[]);
    assert_eq!(fs.path_index().get("bin/rclone").unwrap().ino, 5);
    assert_eq!(fs.cache_dir(), "/var/cache/aether");
}

#[test]
fn reregistering_replaces_entry_with_new_inode() {
    let mut fs = AgentFs::new("/c".to_string());
    fs.register_addin_files("a", &["bin/gh".to_string()], &[]);
    fs.register_addin_files("b", &["bin/gh".to_string()], &[]);
    let gh = fs.path_index().get("bin/gh").unwrap();
    assert_eq!(gh.ino, 3);
    assert_eq!(gh.content_address, "b");
    assert_eq!(fs.path_index().len(), 1);
}

#[test]
fn mark_materialized_records_cache() {
    let mut fs = AgentFs::new("/c".to_string());
    fs.register_addin_files("a", &["bin/gh".to_string()], &[]);
    fs.mark_materialized("bin/gh", "/c/a/bin/gh".to_string(), 1234);
    let gh = fs.path_index().get("bin/gh").unwrap();
    assert!(gh.materialized);
    assert_eq!(gh.size, 1234);
    assert_eq!(gh.cache_path.as_deref(), Some("/c/a/bin/gh"));
    assert_eq!(gh.ino, 2);
    assert_eq!(gh.mode, 0o755);
    fs.mark_materialized("bin/missing", "/x".to_string(), 1);
    assert!(fs.path_index().get("bin/missing").is_none());
}
