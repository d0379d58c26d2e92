use aether::maps::{CredentialEntry, PidEntry, RouteEntry, ShimmerEntry, CREDENTIAL_MAP_PATH, SHIMMER_MAP_PATH};
use aether::net::{pick_interface, tc_outcome, TcOutcome};
use aether::paths::path_join;
use aether::probe::HallucinatorProbe;
use aether::text::{decimal_string, sort_unique};

#[test]
fn interface_choice() {
    assert_eq!(pick_interface(true, true, None), Some("spr0".to_string()));
    assert_eq!(pick_interface(false, true, None), Some("eth0".to_string()));
    assert_eq!(pick_interface(false, false, None), None);
    let listed = Some(vec!["lo".to_string(), "ens3".to_string(), "ens4".to_string()]);
    assert_eq!(pick_interface(false, false, listed), Some("ens3".to_string()));
    assert_eq!(pick_interface(false, false, Some(vec!["lo".to_string()])), None);
}

#[test]
fn tc_outcomes() {
    assert_eq!(tc_outcome(true, ""), TcOutcome::Attached);
    assert_eq!(tc_outcome(false, "RTNETLINK answers: File exists\n"), TcOutcome::AlreadyAttached);
    assert_eq!(tc_outcome(false, "Cannot find device"), TcOutcome::Failed);
}

#[test]
fn probe_staging() {
    let p = HallucinatorProbe::attached();
    assert!(p.is_loaded());
    assert_eq!(HallucinatorProbe::credential_file_name("gh-token"), "gh-token");
    let long = "a".repeat(40);
    assert_eq!(HallucinatorProbe::credential_file_name(&long), "a".repeat(31));
    let (name, bytes) = HallucinatorProbe::pid_staging_file(4242, 0x0102_0304_0506_0708);
    assert_eq!(name, "4242");
    assert_eq!(bytes, 0x0102_0304_0506_0708u64.to_le_bytes().to_vec());
}

#[test]
fn map_entries_default_to_zero() {
    let c = CredentialEntry::default();
    assert_eq!(c.len, 0);
    assert!(c.real_value.iter().all(|b| *b == 0));
    let r = RouteEntry::default();
    assert_eq!((r.proxy_port, r.flags), (0, 0));
    assert_eq!(PidEntry::default().addin_bitmap, 0);
    let s = ShimmerEntry::default();
    assert_eq!((s.score, s.action), (0, 0));
    assert_eq!(CREDENTIAL_MAP_PATH, "/sys/fs/bpf/aether/credentials");
    assert_eq!(SHIMMER_MAP_PATH, "/sys/fs/bpf/aether/shimmer_scores");
}

#[test]
fn decimal_and_sorting() {
    assert_eq!(decimal_string(0), "0");
    assert_eq!(decimal_string(1234567890), "1234567890");
    assert_eq!(decimal_string(u64::MAX), u64::MAX.to_string());
    let s = sort_unique(vec!["b".to_string(), "a".to_string(), "b".to_string(), "ä".to_string(), "B".to_string()]);
    assert_eq!(s, vec!["B", "a", "b", "ä"]);
}

#[test]
fn joining_paths() {
    assert_eq!(path_join("/tmp", "etc"), "/tmp/etc");
    assert_eq!(path_join("/tmp/", "etc"), "/tmp/etc");
    assert_eq!(path_join("", "etc"), "etc");
    assert_eq!(path_join("/tmp", "/etc/passwd"), "/etc/passwd");
    assert_eq!(path_join("a", ""), "a/");
    assert_eq!(path_join("/tmp", "etc"), std::path::Path::new("/tmp").join("etc").to_string_lossy());
}
