// The host layers of these trees are described by what a lookup there
// finds: the base template holds /usr/bin/ls ("real-ls") and /etc/hostname
// ("aether").

use aether::layer::{AddInLayer, BaseLayer, FileMeta, WritableLayer};
use aether::tree::FsTree;

fn setup_tree() -> FsTree {
    FsTree::new(BaseLayer::new("/base"), WritableLayer::new("/writable"))
}

#[test]
fn test_reads_base_files() {
    let tree = setup_tree();
    assert!(tree.path_exists("/usr/bin/ls", false, true));
    let data = tree.read("/usr/bin/ls", None, Some(Ok(b"real-ls".to_vec()))).unwrap().unwrap();
    assert_eq!(data, b"real-ls");
}

#[test]
fn test_addin_files_appear_at_normal_paths() {
    let mut tree = setup_tree();

    let mut gh_layer = AddInLayer::new("gh-abc123");
    gh_layer.put_file("/usr/bin/gh", b"gh-binary-content".to_vec(), 0o755);
    tree.addin_handle().push(gh_layer);

    assert!(tree.path_exists("/usr/bin/gh", false, false));
    assert!(tree.path_exists("/usr/bin/ls", false, true));

    let entries = tree.readdir("/usr/bin", None, Some(vec!["ls".to_string()])).unwrap();
    assert!(entries.contains(&"ls".to_string()));
    assert!(entries.contains(&"gh".to_string()));
}

#[test]
fn test_writes_go_to_writable_layer() {
    let tree = setup_tree();
    // A write lands at the writable layer's host path...
    assert_eq!(tree.writable().host_path("/tmp/output.txt"), "/writable/tmp/output.txt");
    // ...after which the writable layer has the file.
    assert!(tree.path_exists("/tmp/output.txt", true, false));
    let data = tree.read("/tmp/output.txt", Some(Ok(b"hello".to_vec())), None).unwrap().unwrap();
    assert_eq!(data, b"hello");
}

#[test]
fn test_writable_overrides_base() {
    let tree = setup_tree();
    let data = tree.read("/etc/hostname", None, Some(Ok(b"aether".to_vec()))).unwrap().unwrap();
    assert_eq!(data, b"aether");
    let data = tree
        .read("/etc/hostname", Some(Ok(b"custom-host".to_vec())), Some(Ok(b"aether".to_vec())))
        .unwrap()
        .unwrap();
    assert_eq!(data, b"custom-host");
}

#[test]
fn test_readdir_merges_all_layers() {
    let mut tree = setup_tree();
    let mut gh = AddInLayer::new("gh");
    gh.put_file("/usr/bin/gh", b"gh-binary".to_vec(), 0o755);
    tree.addin_handle().push(gh);

    let entries = tree
        .readdir("/usr/bin", Some(vec!["custom-tool".to_string()]), Some(vec!["ls".to_string()]))
        .unwrap();
    assert!(entries.contains(&"ls".to_string()));
    assert!(entries.contains(&"gh".to_string()));
    assert!(entries.contains(&"custom-tool".to_string()));
}

#[test]
fn readdir_is_none_when_no_layer_has_the_directory() {
    let mut tree = setup_tree();
    let mut gh = AddInLayer::new("gh");
    gh.put_file("/usr/bin/gh", b"x".to_vec(), 0o755);
    tree.addin_handle().push(gh);
    assert!(tree.readdir("/srv", None, None).is_none());
    assert_eq!(tree.readdir("/srv", Some(vec![]), None), Some(vec![]));
}

#[test]
fn readdir_dedups_and_sorts() {
    let mut tree = setup_tree();
    let mut a = AddInLayer::new("a");
    a.put_file("/usr/bin/zz", b"1".to_vec(), 0o755);
    a.put_file("/usr/bin/ls", b"2".to_vec(), 0o755);
    tree.addin_handle().push(a);
    let entries = tree
        .readdir("/usr/bin", Some(vec!["ls".to_string(), "aa".to_string()]), Some(vec!["ls".to_string()]))
        .unwrap();
    assert_eq!(entries, vec!["aa".to_string(), "ls".to_string(), "zz".to_string()]);
}

#[test]
fn earlier_addin_layer_wins() {
    let mut tree = setup_tree();
    let mut first = AddInLayer::new("first");
    first.put_file("/usr/bin/gh", b"first".to_vec(), 0o700);
    let mut second = AddInLayer::new("second");
    second.put_file("/usr/bin/gh", b"second".to_vec(), 0o755);
    tree.addin_handle().push(first);
    tree.addin_handle().push(second);
    assert_eq!(tree.read("/usr/bin/gh", None, Some(Ok(b"base".to_vec()))).unwrap().unwrap(), b"first");
    assert_eq!(tree.metadata("/usr/bin/gh", None, None).unwrap().mode, 0o700);
}

#[test]
fn metadata_top_down() {
    let mut tree = setup_tree();
    let t = std::time::SystemTime::UNIX_EPOCH;
    let mut gh = AddInLayer::new("gh");
    gh.put_file("/usr/bin/gh", b"gh".to_vec(), 0o755);
    tree.addin_handle().push(gh);
    let w = FileMeta::host(5, false, t);
    assert_eq!(tree.metadata("/usr/bin/gh", Some(w), None).unwrap().mode, 0o644);
    let dir = tree.metadata("/usr/bin", None, Some(FileMeta::host(4096, true, t))).unwrap();
    assert!(dir.is_dir);
    assert_eq!(dir.size, 0);
    let base = tree.metadata("/etc/hostname", None, Some(FileMeta::host(6, false, t))).unwrap();
    assert_eq!(base.size, 6);
    assert!(tree.metadata("/missing", None, None).is_none());
}

#[test]
fn directory_of_addin_is_not_readable_as_a_file() {
    let mut tree = setup_tree();
    let mut gh = AddInLayer::new("gh");
    gh.put_file("/usr/bin/gh", b"gh".to_vec(), 0o755);
    tree.addin_handle().push(gh);
    assert!(tree.read("/usr/bin", None, None).is_none());
}

#[test]
fn written_paths_are_absolute_in_the_tree() {
    let tree = setup_tree();
    let found = vec!["tmp/out.txt".to_string(), "usr/bin/custom-tool".to_string()];
    assert_eq!(tree.written_paths(&found), vec!["/tmp/out.txt".to_string(), "/usr/bin/custom-tool".to_string()]);
    assert!(tree.written_paths(&vec![]).is_empty());
}
