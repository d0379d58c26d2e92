use aether::context::build;
use aether::manifest::{Binary, Effect, Manifest, Package};
use aether::strmap::StrMap;

fn manifest(version: &str, effects: Vec<Effect>, binaries: Vec<&str>) -> Manifest {
    Manifest {
        package: Package { name: "gh".to_string(), version: version.to_string(), extra: StrMap::new() },
        effects,
        binaries: binaries.into_iter().map(|p| Binary { path: p.to_string() }).collect(),
        proxy_rules: None,
    }
}

fn effect(name: &str, meta: Vec<(&str, toml::Value)>) -> Effect {
    let mut m = StrMap::new();
    for (k, v) in meta {
        m.insert(k.to_string(), v);
    }
    Effect {
        binary_name: name.to_string(),
        shim_library: "/usr/lib/aether/shims/libgh_shim.so".to_string(),
        env: StrMap::new(),
        meta: m,
    }
}

#[test]
fn builds_context_from_addins() {
    // [package] gh 2.62.0; one effect `gh` with tool_type = "hybrid"; binary usr/bin/gh.
    let m = manifest(
        "2.62.0",
        vec![effect("gh", vec![("tool_type", toml::Value::String("hybrid".to_string()))])],
        vec!["usr/bin/gh"],
    );

    let ctx = build(&[("gh-abc", &m)]);
    assert_eq!(ctx.tools.len(), 1);
    assert_eq!(ctx.tools[0].command, "gh");
    assert_eq!(ctx.tools[0].path, "/usr/bin/gh");
    assert_eq!(ctx.tools[0].meta.get("tool_type"), Some(&toml::Value::String("hybrid".to_string())));
}

#[test]
fn empty_context() {
    let ctx = build(&[]);
    assert_eq!(ctx.version, "1");
    assert!(ctx.tools.is_empty());
    assert_eq!(ctx.request_tools.ttrpc_socket, "unix:///run/aether/agent.sock");
    assert_eq!(ctx.request_tools.request_file, "/run/aether/requests/tool_request.json");
}

#[test]
fn tool_paths_and_order() {
    let a = manifest(
        "1.0",
        vec![effect("gh", vec![]), effect("git", vec![("n", toml::Value::Integer(42))])],
        vec!["opt/bin/git", "//usr/local/bin/gh"],
    );
    let b = manifest("2.0", vec![effect("rclone", vec![])], vec![]);
    let ctx = build(&[("a-1", &a), ("b-2", &b)]);
    assert_eq!(ctx.tools.len(), 3);
    assert_eq!(ctx.tools[0].path, "/usr/local/bin/gh");
    assert_eq!(ctx.tools[1].path, "/opt/bin/git");
    assert_eq!(ctx.tools[1].meta.get("n"), Some(&toml::Value::Integer(42)));
    assert_eq!(ctx.tools[2].path, "/usr/bin/rclone");
    assert_eq!(ctx.tools[2].addin, "b-2");
    assert_eq!(ctx.tools[2].version, "2.0");
    assert_eq!(ctx.tools[0].addin, "a-1");
}
