use aether::layer::{AddInLayer, BaseLayer, FileMeta, Layer, WritableLayer};

#[test]
fn test_addin_layer_files_pushed_by_control_plane() {
    let mut layer = AddInLayer::new("gh-abc123");

    // Control plane pushes the file content — no fetching
    layer.put_file("/usr/bin/gh", b"#!/bin/sh\necho gh".to_vec(), 0o755);

    assert!(layer.path_exists("/usr/bin/gh"));
    assert!(layer.path_exists("/usr/bin")); // parent dir
    assert!(!layer.path_exists("/usr/bin/rclone"));

    // Content is immediately available — no lazy loading
    let data = layer.read("/usr/bin/gh").unwrap().unwrap();
    assert_eq!(data, b"#!/bin/sh\necho gh");

    let meta = layer.metadata("/usr/bin/gh").unwrap();
    assert_eq!(meta.size, b"#!/bin/sh\necho gh".len() as u64);
    assert_eq!(meta.mode, 0o755);

    let entries = layer.readdir("/usr/bin").unwrap();
    assert!(entries.contains(&"gh".to_string()));
}

#[test]
fn every_parent_directory_lists_its_child() {
    let mut layer = AddInLayer::new("tools");
    layer.put_file("/opt/tools/bin/mytool", b"tool".to_vec(), 0o755);
    assert_eq!(layer.readdir("/opt/tools/bin").unwrap(), vec!["mytool".to_string()]);
    assert_eq!(layer.readdir("/opt/tools").unwrap(), vec!["bin".to_string()]);
    assert_eq!(layer.readdir("/opt").unwrap(), vec!["tools".to_string()]);
    assert_eq!(layer.readdir("/").unwrap(), vec!["opt".to_string()]);
    let meta = layer.metadata("/opt/tools").unwrap();
    assert!(meta.is_dir);
    assert_eq!(meta.mode, 0o755);
    assert_eq!(meta.size, 0);
    assert!(layer.read("/opt/tools").is_none());
}

#[test]
fn names_are_listed_once_in_order_of_arrival() {
    let mut layer = AddInLayer::new("pkg");
    layer.put_file("/usr/bin/b", b"1".to_vec(), 0o755);
    layer.put_file("/usr/bin/a", b"2".to_vec(), 0o755);
    layer.put_file("/usr/bin/b", b"3".to_vec(), 0o700);
    assert_eq!(layer.readdir("/usr/bin").unwrap(), vec!["b".to_string(), "a".to_string()]);
    assert_eq!(layer.read("/usr/bin/b").unwrap().unwrap(), b"3");
    assert_eq!(layer.metadata("/usr/bin/b").unwrap().mode, 0o700);
}

#[test]
fn relative_paths_stop_before_the_empty_parent() {
    let mut layer = AddInLayer::new("rel");
    layer.put_file("lib/x.so", b"x".to_vec(), 0o644);
    assert_eq!(layer.readdir("lib").unwrap(), vec!["x.so".to_string()]);
    assert!(layer.readdir("").is_none());
    assert!(!layer.path_exists("/"));
}

#[test]
fn layer_name_is_the_addin_id() {
    let layer = AddInLayer::new("gh-abc123");
    assert_eq!(layer.name(), "gh-abc123");
    assert!(layer.metadata("/x").is_none());
    assert!(layer.readdir("/x").is_none());
}

#[test]
fn host_paths_join_below_the_root() {
    let base = BaseLayer::new("/srv/base");
    assert_eq!(base.host_path("/usr/bin/ls"), "/srv/base/usr/bin/ls");
    assert_eq!(base.host_path("//etc/hostname"), "/srv/base/etc/hostname");
    let w = WritableLayer::new("/srv/w");
    assert_eq!(w.host_path("tmp/out.txt"), "/srv/w/tmp/out.txt");
}

#[test]
fn empty_writable_listing_counts_as_none() {
    assert!(WritableLayer::listing(vec![]).is_none());
    assert_eq!(WritableLayer::listing(vec!["a".to_string()]), Some(vec!["a".to_string()]));
}

#[test]
fn host_metadata_modes() {
    let t = std::time::SystemTime::UNIX_EPOCH;
    let d = FileMeta::host(4096, true, t);
    assert_eq!((d.size, d.mode, d.is_dir), (4096, 0o755, true));
    let f = FileMeta::host(12, false, t);
    assert_eq!((f.size, f.mode, f.is_dir), (12, 0o644, false));
    assert_eq!(f.modified, t);
    let fm = FileMeta::file(3, 0o600);
    assert_eq!((fm.size, fm.mode, fm.is_dir), (3, 0o600, false));
    let dm = FileMeta::dir(0o700);
    assert_eq!((dm.size, dm.mode, dm.is_dir), (0, 0o700, true));
}
