use aether::overlay::Overlay;

#[test]
fn put_adds_eager_file() {
    let mut overlay = Overlay::new("/nonexistent", "/tmp/test-writable");

    overlay.put("gh", b"gh-binary".to_vec(), 0o755);

    assert!(overlay.file_exists("gh"));
    let content = overlay.read("gh").unwrap().unwrap();
    assert_eq!(content, b"gh-binary");

    let (size, mode) = overlay.stat("gh").unwrap();
    assert_eq!(size, 9);
    assert_eq!(mode, 0o755);
}

#[test]
fn lazy_file_exists_but_has_no_content() {
    let mut overlay = Overlay::new("/nonexistent", "/tmp/test-writable");

    overlay.add_lazy("chromium", 2_000_000_000, 0o755);

    assert!(overlay.file_exists("chromium"));
    assert!(overlay.is_lazy("chromium"));

    // stat reports the declared size
    let (size, _mode) = overlay.stat("chromium").unwrap();
    assert_eq!(size, 2_000_000_000);

    // read returns None (no bytes yet)
    let content = overlay.read("chromium").unwrap();
    assert!(content.is_none());
}

#[test]
fn fill_provides_content_for_lazy_file() {
    let mut overlay = Overlay::new("/nonexistent", "/tmp/test-writable");

    overlay.add_lazy("gh", 50_000_000, 0o755);
    assert!(overlay.is_lazy("gh"));

    overlay.fill("gh", b"real-gh-binary".to_vec());
    assert!(!overlay.is_lazy("gh"));

    let content = overlay.read("gh").unwrap().unwrap();
    assert_eq!(content, b"real-gh-binary");
}

#[test]
fn remove_makes_file_disappear() {
    let mut overlay = Overlay::new("/nonexistent", "/tmp/test-writable");

    overlay.put("gh", b"gh".to_vec(), 0o755);
    assert!(overlay.file_exists("gh"));

    overlay.remove("gh");
    assert!(!overlay.file_exists("gh"));
}

#[test]
fn list_returns_sorted_names() {
    let mut overlay = Overlay::new("/nonexistent", "/tmp/test-writable");

    overlay.put("zsh", b"z".to_vec(), 0o755);
    overlay.put("bash", b"b".to_vec(), 0o755);
    overlay.put("gh", b"g".to_vec(), 0o755);

    let names = overlay.list();
    assert_eq!(names, vec!["bash", "gh", "zsh"]);
}

#[test]
fn snapshot_reads_real_files() {
    // What reading the real directory gave: two regular files.
    let mut overlay = Overlay::new("/real/dir", "/tmp/test-writable");
    overlay.snapshot(vec![("ls".to_string(), b"fake-ls".to_vec()), ("cat".to_string(), b"fake-cat".to_vec())]);

    assert!(overlay.file_exists("ls"));
    assert!(overlay.file_exists("cat"));
    assert!(!overlay.file_exists("gh"));

    let content = overlay.read("ls").unwrap().unwrap();
    assert_eq!(content, b"fake-ls");
    assert_eq!(overlay.stat("cat"), Some((8, 0o755)));
}

#[test]
fn snapshot_entries_are_not_added() {
    let mut overlay = Overlay::new("/real/dir", "/w");
    overlay.snapshot(vec![("ls".to_string(), b"x".to_vec())]);
    overlay.put("gh", b"y".to_vec(), 0o700);
    assert!(!overlay.files.get("ls").unwrap().added);
    assert!(overlay.files.get("gh").unwrap().added);
}

#[test]
fn fill_of_missing_file_does_nothing() {
    let mut overlay = Overlay::new("/m", "/w");
    overlay.fill("ghost", b"boo".to_vec());
    assert!(!overlay.file_exists("ghost"));
    assert!(overlay.read("ghost").is_none());
    assert!(overlay.stat("ghost").is_none());
    assert!(!overlay.is_lazy("ghost"));
}

#[test]
fn fill_sets_size_and_keeps_mode() {
    let mut overlay = Overlay::new("/m", "/w");
    overlay.add_lazy("gh", 50_000_000, 0o711);
    overlay.fill("gh", b"12345".to_vec());
    assert_eq!(overlay.stat("gh"), Some((5, 0o711)));
}

#[test]
fn later_put_replaces_earlier() {
    let mut overlay = Overlay::new("/m", "/w");
    overlay.put("gh", b"one".to_vec(), 0o755);
    overlay.put("gh", b"three".to_vec(), 0o700);
    assert_eq!(overlay.read("gh"), Some(Some(b"three".to_vec())));
    assert_eq!(overlay.list(), vec!["gh"]);
}

#[test]
fn ext4_path_is_in_writable_dir() {
    let overlay = Overlay::new("/usr/bin", "/var/cache/aether/usr-bin");
    assert_eq!(overlay.ext4_path("gh"), "/var/cache/aether/usr-bin/gh");
    assert_eq!(overlay.mount_path, "/usr/bin");
}
