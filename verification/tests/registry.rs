use sha2::Digest;
use aether::manifest::{Effect, Manifest, Package};
use aether::registry::{generate_id, AddInRegistry};
use aether::strmap::StrMap;

// The manifest registered here, built by calls:
// [package] name = "gh", version = "2.62.0", description = "GitHub CLI";
// one effect for `gh` with its shim library.
fn gh_manifest() -> Manifest {
    let mut extra = StrMap::new();
    extra.insert("description".to_string(), toml::Value::String("GitHub CLI".to_string()));
    Manifest {
        package: Package { name: "gh".to_string(), version: "2.62.0".to_string(), extra },
        effects: vec![Effect {
            binary_name: "gh".to_string(),
            shim_library: "/usr/lib/aether/shims/libgh_shim.so".to_string(),
            env: StrMap::new(),
            meta: StrMap::new(),
        }],
        binaries: vec![],
        proxy_rules: None,
    }
}

#[test]
fn test_register_and_get() {
    let mut reg = AddInRegistry::new("/run/aether/manifests");

    let id = reg.register("gh", "2.62.0", gh_manifest(), "[package]\nname = \"gh\"\n", "sha256:abc");
    assert!(id.starts_with("gh-"));

    let entry = reg.get(&id).unwrap();
    assert_eq!(entry.name, "gh");
    assert_eq!(entry.manifest.effects.len(), 1);

    // Where the manifest is persisted for the shim-loader.
    assert_eq!(reg.manifest_path(&id), format!("/run/aether/manifests/{}.toml", id));
}

#[test]
fn ids_are_name_and_hash_prefix() {
    // SHA-256("gh:2.62.0") starts with these 8 bytes.
    let id = generate_id("gh", "2.62.0");
    assert_eq!(id.len(), "gh-".len() + 16);
    assert!(id.starts_with("gh-"));
    assert!(id[3..].chars().all(|c| c.is_ascii_hexdigit() && !c.is_ascii_uppercase()));
    assert_eq!(id, generate_id("gh", "2.62.0"));
    assert_ne!(id, generate_id("gh", "2.63.0"));
    assert!(generate_id("", "").starts_with('-'));
}

#[test]
fn known_digest_prefix() {
    // Checked against the hash function itself: the id carries the first
    // 8 bytes of SHA-256("a:b").
    let id = generate_id("a", "b");
    let expected = {
        let d = <sha2::Sha256 as Digest>::digest(b"a:b");
        format!("a-{}", hex::encode(&d[..8]))
    };
    assert_eq!(id, expected);
}

#[test]
fn register_replace_list_remove() {
    let mut reg = AddInRegistry::new("/m");
    let id1 = reg.register("gh", "2.62.0", gh_manifest(), "one", "sha256:abc");
    let id2 = reg.register("gh", "2.62.0", gh_manifest(), "two", "sha256:def");
    assert_eq!(id1, id2);
    assert_eq!(reg.list().len(), 1);
    assert_eq!(reg.get(&id1).unwrap().raw_toml, "two");
    assert_eq!(reg.get(&id1).unwrap().content_address, "sha256:def");
    let other = reg.register("rclone", "1.0", gh_manifest(), "three", "x");
    assert_eq!(reg.list().len(), 2);
    let removed = reg.remove(&id1).unwrap();
    assert_eq!(removed.version, "2.62.0");
    assert!(reg.get(&id1).is_none());
    assert!(reg.remove(&id1).is_none());
    assert_eq!(reg.list().len(), 1);
    assert_eq!(reg.list()[0].id, other);
}

#[test]
fn manifests_are_written_in_the_manifest_directory() {
    let reg = AddInRegistry::new("/etc/aether/manifests");
    assert_eq!(reg.manifest_dir_path(), "/etc/aether/manifests");
    assert_eq!(reg.manifest_path("gh-0123"), "/etc/aether/manifests/gh-0123.toml");
}
