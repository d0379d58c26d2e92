use aether::manifest::{Effect, Manifest, Package, ProxyRule, ProxyRules};
use aether::shim_loader::{
    collect_env_vars, collect_preloads, credential_routes_text, extra_env_text, find_arg, is_manifest_file, ld_preload_text,
};
use aether::strmap::StrMap;

fn effect(lib: &str, env: Vec<(&str, &str)>) -> Effect {
    let mut e = StrMap::new();
    for (k, v) in env {
        e.insert(k.to_string(), v.to_string());
    }
    Effect { binary_name: "x".to_string(), shim_library: lib.to_string(), env: e, meta: StrMap::new() }
}

fn manifest(effects: Vec<Effect>, rules: Option<Vec<(&str, &str, &str)>>) -> Manifest {
    Manifest {
        package: Package { name: "p".to_string(), version: "1".to_string(), extra: StrMap::new() },
        effects,
        binaries: vec![],
        proxy_rules: rules.map(|rs| ProxyRules {
            rules: rs
                .into_iter()
                .map(|(m, k, t)| ProxyRule { match_pattern: m.to_string(), credential_key: k.to_string(), target_address: t.to_string() })
                .collect(),
        }),
    }
}

#[test]
fn find_arg_takes_the_next_argument() {
    let args: Vec<String> = ["loader", "--manifest-dir", "/m", "--env-dir", "/e", "--ebpf-map-dir"].iter().map(|s| s.to_string()).collect();
    assert_eq!(find_arg(&args, "--manifest-dir"), Some("/m".to_string()));
    assert_eq!(find_arg(&args, "--env-dir"), Some("/e".to_string()));
    assert_eq!(find_arg(&args, "--ebpf-map-dir"), None);
    assert_eq!(find_arg(&args, "--other"), None);
    let twice: Vec<String> = ["--x", "1", "--x", "2"].iter().map(|s| s.to_string()).collect();
    assert_eq!(find_arg(&twice, "--x"), Some("1".to_string()));
}

#[test]
fn preloads_and_env_in_order() {
    let ms = vec![
        manifest(vec![effect("/a.so", vec![("A", "1")]), effect("/b.so", vec![])], None),
        manifest(vec![effect("/c.so", vec![("C", "3"), ("D", "4")])], None),
    ];
    let pre = collect_preloads(&ms);
    assert_eq!(pre, vec!["/a.so", "/b.so", "/c.so"]);
    assert_eq!(ld_preload_text(&pre), Some("/a.so:/b.so:/c.so".to_string()));
    let env = collect_env_vars(&ms);
    assert_eq!(env.len(), 3);
    assert_eq!(env[0], ("A".to_string(), "1".to_string()));
    let mut rest = env[1..].to_vec();
    rest.sort();
    assert_eq!(rest, vec![("C".to_string(), "3".to_string()), ("D".to_string(), "4".to_string())]);
    let text = extra_env_text(&vec![("A".to_string(), "1".to_string()), ("B".to_string(), "x=y".to_string())]);
    assert_eq!(text, Some("A=1\nB=x=y".to_string()));
}

#[test]
fn nothing_to_write_without_entries() {
    assert_eq!(ld_preload_text(&vec![]), None);
    assert_eq!(extra_env_text(&vec![]), None);
    assert_eq!(credential_routes_text(&[manifest(vec![], None)]), None);
    assert_eq!(credential_routes_text(&[manifest(vec![], Some(vec![]))]), None);
}

#[test]
fn credential_routes_lines() {
    let ms = vec![
        manifest(vec![], Some(vec![("*.dropbox.com", "dropbox-token", "")])),
        manifest(vec![], None),
        manifest(vec![], Some(vec![("api.github.com", "gh-token", "127.0.0.1:9000")])),
    ];
    assert_eq!(
        credential_routes_text(&ms),
        Some("*.dropbox.com|dropbox-token|\napi.github.com|gh-token|127.0.0.1:9000".to_string())
    );
}

#[test]
fn only_toml_entries_are_manifests() {
    assert!(is_manifest_file("gh-0123456789abcdef.toml"));
    assert!(is_manifest_file("a.toml"));
    assert!(is_manifest_file("a.b.toml"));
    assert!(!is_manifest_file(".toml"));
    assert!(!is_manifest_file("x.tom"));
    assert!(!is_manifest_file("x.toml.bak"));
    assert!(!is_manifest_file("toml"));
}
