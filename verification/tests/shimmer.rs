use aether::shimmer::{path_matches, Shimmer, ShimmerAction, ShimmerRule};

fn rule(pattern: &str, score: u32, action: ShimmerAction) -> ShimmerRule {
    ShimmerRule { path_pattern: pattern.to_string(), score, action }
}

#[test]
fn test_path_matches() {
    assert!(path_matches("/usr/lib/foo.so", "*.so"));
    assert!(path_matches("/tmp/data/file.txt", "/tmp/*"));
    assert!(!path_matches("/etc/passwd", "/tmp/*"));
    assert!(path_matches("/anything", "*"));
}

#[test]
fn test_evaluate_highest_score_wins() {
    let mut s = Shimmer::new();
    s.add_rules(vec![
        rule("/tmp/*", 10, ShimmerAction::Allow),
        rule("/tmp/*", 50, ShimmerAction::Alert),
    ]);

    let (score, action) = s.evaluate("/tmp/foo");
    assert_eq!(score, 50);
    assert_eq!(action, ShimmerAction::Alert);
}

#[test]
fn exact_pattern_matches_only_itself() {
    assert!(path_matches("/etc/passwd", "/etc/passwd"));
    assert!(!path_matches("/etc/passwd2", "/etc/passwd"));
    assert!(!path_matches("/etc", "/etc/passwd"));
}

#[test]
fn dir_pattern_matches_only_paths_under_the_directory() {
    assert!(path_matches("/tmp/x", "/tmp/*"));
    assert!(path_matches("/tmp/", "/tmp/*"));
    assert!(!path_matches("/tmpx/a", "/tmp/*"));
    assert!(!path_matches("/tmp.bak", "/tmp/*"));
    assert!(!path_matches("/tmpfile", "/tmp/*"));
    assert!(!path_matches("/tmp", "/tmp/*"));
    assert!(path_matches("/etc", "/*"));
    assert!(!path_matches("etc", "/*"));
}

#[test]
fn suffix_pattern_needs_the_dot() {
    assert!(path_matches("libx.so", "*.so"));
    assert!(!path_matches("libxso", "*.so"));
    assert!(path_matches(".so", "*.so"));
}

#[test]
fn score_bands() {
    assert_eq!(ShimmerAction::from_score(0), ShimmerAction::Allow);
    assert_eq!(ShimmerAction::from_score(30), ShimmerAction::Allow);
    assert_eq!(ShimmerAction::from_score(31), ShimmerAction::Alert);
    assert_eq!(ShimmerAction::from_score(70), ShimmerAction::Alert);
    assert_eq!(ShimmerAction::from_score(71), ShimmerAction::Block);
    assert_eq!(ShimmerAction::from_score(u32::MAX), ShimmerAction::Block);
}

#[test]
fn no_matching_rule_scores_zero() {
    let mut s = Shimmer::new();
    s.add_rules(vec![rule("/etc/*", 90, ShimmerAction::Block)]);
    assert_eq!(s.evaluate("/tmp/x"), (0, ShimmerAction::Allow));
    assert_eq!(Shimmer::new().evaluate("/anything"), (0, ShimmerAction::Allow));
}

#[test]
fn most_restrictive_match_wins_across_packages() {
    let mut s = Shimmer::new();
    s.add_rules(vec![rule("*", 20, ShimmerAction::Allow), rule("*.so", 80, ShimmerAction::Block)]);
    s.add_rules(vec![rule("/usr/lib/*", 60, ShimmerAction::Alert)]);
    assert_eq!(s.evaluate("/usr/lib/libc.so"), (80, ShimmerAction::Block));
    assert_eq!(s.evaluate("/usr/lib/libc.a"), (60, ShimmerAction::Alert));
    assert_eq!(s.evaluate("/home/x"), (20, ShimmerAction::Allow));
}

#[test]
fn staging_files_name_and_line() {
    let mut s = Shimmer::new();
    s.add_rules(vec![rule("/tmp/*", 45, ShimmerAction::Alert), rule("*.so", 7, ShimmerAction::Block)]);
    let files = s.staging_files();
    assert_eq!(files.len(), 2);
    assert_eq!(files[0].0, "_tmp_*");
    assert_eq!(files[0].1, "/tmp/*|45|1");
    assert_eq!(files[1].0, "*.so");
    assert_eq!(files[1].1, "*.so|7|2");
}

#[test]
fn action_codes() {
    assert_eq!(ShimmerAction::Allow.code(), 0);
    assert_eq!(ShimmerAction::Alert.code(), 1);
    assert_eq!(ShimmerAction::Block.code(), 2);
}
