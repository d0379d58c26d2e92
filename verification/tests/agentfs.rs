// The host directories of these filesystems are described by what a lookup
// there finds: the golden image holds /usr/bin/ls ("real-ls") and
// /etc/hostname ("aether"); the writable directory holds what each test
// writes from inside.

use aether::agentfs::AgentFs;

fn setup() -> AgentFs {
    AgentFs::new("/base", "/writable")
}

#[test]
fn shimmer_puts_file_it_appears() {
    let mut fs = setup();

    assert!(!fs.path_exists("/usr/bin/gh", false, false));

    fs.put("/usr/bin/gh", b"gh-binary".to_vec(), 0o755);

    assert!(fs.path_exists("/usr/bin/gh", false, false));
    assert_eq!(fs.read("/usr/bin/gh", None, None).unwrap().unwrap(), b"gh-binary");
    assert_eq!(fs.mode("/usr/bin/gh", false, false), Some(0o755));
}

#[test]
fn shimmer_removes_file_it_disappears() {
    let mut fs = setup();

    fs.put("/usr/bin/gh", b"gh-binary".to_vec(), 0o755);
    assert!(fs.path_exists("/usr/bin/gh", false, false));

    fs.remove("/usr/bin/gh");
    assert!(!fs.path_exists("/usr/bin/gh", false, false));
}

#[test]
fn readdir_merges_all_layers() {
    let mut fs = setup();

    // Base has /usr/bin/ls; Shimmer puts /usr/bin/gh; a process wrote /usr/bin/my-tool.
    fs.put("/usr/bin/gh", b"gh".to_vec(), 0o755);
    let writable = Some(vec!["my-tool".to_string()]);
    let base = Some(vec!["ls".to_string()]);

    let entries = fs.readdir("/usr/bin", writable, base);
    assert!(entries.contains(&"ls".to_string()));
    assert!(entries.contains(&"gh".to_string()));
    assert!(entries.contains(&"my-tool".to_string()));
}

#[test]
fn addin_overrides_base() {
    let mut fs = setup();

    let base_ls = || Some(Ok(b"real-ls".to_vec()));
    assert_eq!(fs.read("/usr/bin/ls", None, base_ls()).unwrap().unwrap(), b"real-ls");

    fs.put("/usr/bin/ls", b"shimmed-ls".to_vec(), 0o755);

    assert_eq!(fs.read("/usr/bin/ls", None, base_ls()).unwrap().unwrap(), b"shimmed-ls");
}

#[test]
fn writable_overrides_addin() {
    let mut fs = setup();

    fs.put("/usr/bin/gh", b"shimmer-gh".to_vec(), 0o755);
    // A process wrote /usr/bin/gh = "local-gh".
    let written = Some(Ok(b"local-gh".to_vec()));

    assert_eq!(fs.read("/usr/bin/gh", written, None).unwrap().unwrap(), b"local-gh");
}

#[test]
fn addin_dirs_exist() {
    let mut fs = setup();

    fs.put("/opt/tools/bin/mytool", b"tool".to_vec(), 0o755);

    assert!(fs.is_dir("/opt/tools/bin", false, false));
    assert!(fs.is_dir("/opt/tools", false, false));
    assert!(fs.is_dir("/opt", false, false));
}

#[test]
fn reads_base_files() {
    let fs = setup();
    assert!(fs.path_exists("/usr/bin/ls", false, true));
    assert_eq!(fs.read("/usr/bin/ls", None, Some(Ok(b"real-ls".to_vec()))).unwrap().unwrap(), b"real-ls");
}

#[test]
fn writable_overrides_base() {
    let fs = setup();
    assert_eq!(fs.read("/etc/hostname", None, Some(Ok(b"aether".to_vec()))).unwrap().unwrap(), b"aether");
    // After a write from inside, the writable directory has the file.
    let written = Some(Ok(b"custom".to_vec()));
    assert_eq!(fs.read("/etc/hostname", written, Some(Ok(b"aether".to_vec()))).unwrap().unwrap(), b"custom");
}

#[test]
fn readdir_lists_direct_children_once_sorted() {
    let mut fs = setup();
    fs.put("/opt/tools/bin/mytool", b"t".to_vec(), 0o755);
    fs.put("/opt/tools/lib/a.so", b"a".to_vec(), 0o644);
    fs.put("/opt/zeta", b"z".to_vec(), 0o644);
    fs.put("/optional", b"o".to_vec(), 0o644);
    assert_eq!(fs.readdir("/opt", None, None), vec!["tools".to_string(), "zeta".to_string()]);
    assert_eq!(fs.readdir("/opt/", None, None), vec!["tools".to_string(), "zeta".to_string()]);
    assert_eq!(fs.readdir("/opt/tools", Some(vec!["lib".to_string()]), None), vec!["bin".to_string(), "lib".to_string()]);
    assert_eq!(fs.readdir("/", None, Some(vec!["usr".to_string(), "etc".to_string()])), vec![
        "etc".to_string(),
        "opt".to_string(),
        "optional".to_string(),
        "usr".to_string(),
    ]);
    assert!(fs.readdir("/nothing", None, None).is_empty());
}

#[test]
fn size_and_mode_per_layer() {
    let mut fs = setup();
    fs.put("/usr/bin/gh", b"gh-binary".to_vec(), 0o700);
    assert_eq!(fs.size("/usr/bin/gh", None, None), Some(9));
    assert_eq!(fs.size("/usr/bin/gh", Some(Some(3)), None), Some(3));
    assert_eq!(fs.size("/usr/bin/gh", Some(None), None), None);
    assert_eq!(fs.size("/usr/bin/ls", None, Some(7)), Some(7));
    assert_eq!(fs.mode("/usr/bin/gh", false, true), Some(0o700));
    assert_eq!(fs.mode("/usr/bin/gh", true, false), Some(0o644));
    assert_eq!(fs.mode("/usr/bin/ls", false, true), Some(0o644));
    assert_eq!(fs.mode("/nope", false, false), None);
}

#[test]
fn list_and_paths() {
    let mut fs = setup();
    fs.put("/a", b"1".to_vec(), 0o644);
    fs.put("/b", b"2".to_vec(), 0o644);
    fs.put("/a", b"3".to_vec(), 0o644);
    let mut listed = fs.list_addin_files();
    listed.sort();
    assert_eq!(listed, vec!["/a".to_string(), "/b".to_string()]);
    assert_eq!(fs.base_path("/usr/bin/ls"), "/base/usr/bin/ls");
    assert_eq!(fs.writable_path("/etc/hostname"), "/writable/etc/hostname");
}

#[test]
fn a_file_put_is_not_a_directory() {
    let mut fs = setup();
    fs.put("/usr/bin/gh", b"gh".to_vec(), 0o755);
    assert!(!fs.is_dir("/usr/bin/gh", false, false));
    assert!(fs.is_dir("/usr/bin", false, false));
    assert!(fs.is_dir("/", false, false));
}
