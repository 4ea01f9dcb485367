use cargo_fusion::workspace::{
    contains_workspace_table, glob_matches, glob_pattern_matches, simple_glob_match, simple_glob_matches,
    workspace_member_patterns, workspace_root_contains, MemberScan, WorkspaceError,
};

#[test]
fn glob_exact_segment() {
    assert!(simple_glob_matches("crates/*", "crates/foo"));
}

#[test]
fn glob_does_not_cross_slash() {
    assert!(!simple_glob_matches("crates/*", "crates/foo/bar"));
}

#[test]
fn glob_no_wildcard() {
    assert!(simple_glob_matches("crates/foo", "crates/foo"));
    assert!(!simple_glob_matches("crates/foo", "crates/bar"));
}

#[test]
fn glob_suffix() {
    assert!(simple_glob_matches("*-core", "my-core"));
    assert!(!simple_glob_matches("*-core", "my-core/sub"));
}

#[test]
fn star_matches_only_within_one_segment() {
    assert!(simple_glob_matches("a*b", "axyzb"));
    assert!(simple_glob_matches("a*b", "ab"));
    assert!(!simple_glob_matches("a*b", "ax/yb"));
    assert!(!simple_glob_matches("ab*ba", "aba"));
}

#[test]
fn crate_mode_glob_stays_in_one_segment() {
    assert!(glob_pattern_matches("crates/*", "crates/foo"));
    assert!(!glob_pattern_matches("crates/*", "crates/foo/bar"));
    assert!(!glob_pattern_matches("crates/*", "tools/foo"));
    assert!(glob_pattern_matches("*-core", "my-core"));
    // A `*` never reaches across a `/`.
    assert!(!glob_pattern_matches("*-core", "my-core/sub"));
    assert!(!glob_pattern_matches("crates/*-core", "crates/a/b-core"));
    assert!(!glob_pattern_matches("*-core", "my-base/sub"));
    assert!(glob_pattern_matches("plain", "plain"));
    assert!(!glob_pattern_matches("plain", "plainer"));
}

#[test]
fn member_glob_relative_to_workspace() {
    assert!(simple_glob_match("/ws/crates/*", "/ws/crates/foo", "/ws"));
    assert!(!simple_glob_match("/ws/crates/*", "/ws/tools/foo", "/ws"));
    assert!(!simple_glob_match("/ws/crates/*", "/other/crates/foo", "/ws"));
}

#[test]
fn member_without_star_uses_canonical_form() {
    let canonical = Some(String::from("/ws/crates/foo"));
    assert!(glob_matches("/ws/crates/foo", &canonical, "/ws/crates/foo", "/ws"));
    assert!(glob_matches("/ws/crates/foo", &canonical, "/ws/crates/foo/inner", "/ws"));
    assert!(!glob_matches("/ws/crates/foo", &canonical, "/ws/crates/foobar", "/ws"));
    assert!(!glob_matches("/ws/crates/foo", &None, "/ws/crates/foo", "/ws"));
    assert!(glob_matches("/ws/crates/*", &None, "/ws/crates/foo", "/ws"));
}

#[test]
fn workspace_table_detection() {
    assert!(contains_workspace_table("[workspace]\nmembers = [\"crates/*\"]\n"));
    assert!(contains_workspace_table("[package]\nname = \"x\"\n\n  [workspace.dependencies]\n"));
    assert!(contains_workspace_table("[package]\r\n[workspace]\r\n"));
    assert!(!contains_workspace_table("# [workspace]\n[package]\n"));
    assert!(!contains_workspace_table("[package]\nname = \"workspace\"\n"));
    assert!(!contains_workspace_table(""));
}

#[test]
fn member_patterns_of_manifest_text() {
    match workspace_member_patterns("/ws", "[workspace]\nmembers = [\"crates/*\", \"tools\"]\n") {
        Ok(MemberScan::Patterns(v)) => assert_eq!(v, vec![String::from("/ws/crates/*"), String::from("/ws/tools")]),
        other => panic!("unexpected {:?}", other),
    }
    assert!(matches!(workspace_member_patterns("/ws", "[package]\nname = \"x\"\n"), Ok(MemberScan::NotWorkspace)));
    assert!(matches!(workspace_member_patterns("/ws", "[workspace]\nresolver = \"2\"\n"), Ok(MemberScan::AllMembers)));
    assert!(matches!(
        workspace_member_patterns("/ws", "[workspace]\nmembers = [\n"),
        Err(WorkspaceError::Parse { manifest, .. }) if manifest == "/ws/Cargo.toml"
    ));
    // A `workspace` key that is not a table, or `members` that is not an array, lists no members.
    assert!(matches!(workspace_member_patterns("/ws", "[workspace]\nmembers = \"x\"\n"), Ok(MemberScan::AllMembers)));
    match workspace_member_patterns("/ws", "[package]\nname = \"p\"\n[workspace]\nresolver = \"2\"\nmembers = [\"z\", \"a\"]\n") {
        Ok(MemberScan::Patterns(v)) => assert_eq!(v, vec![String::from("/ws/z"), String::from("/ws/a")]),
        other => panic!("unexpected {:?}", other),
    }
    match workspace_member_patterns("/ws", "[workspace]\nmembers = [\"a\", 3]\n") {
        Ok(MemberScan::Patterns(v)) => assert_eq!(v, vec![String::from("/ws/a")]),
        other => panic!("unexpected {:?}", other),
    }
}

#[test]
fn workspace_covers_crate() {
    let scan = MemberScan::Patterns(vec![String::from("/ws/tools"), String::from("/ws/crates/*")]);
    assert!(workspace_root_contains(&scan, &vec![None, None], "/ws/crates/foo", "/ws"));
    assert!(!workspace_root_contains(&scan, &vec![None, None], "/ws/other/foo", "/ws"));
    assert!(workspace_root_contains(&scan, &vec![Some(String::from("/ws/tools")), None], "/ws/tools", "/ws"));
    assert!(workspace_root_contains(&MemberScan::AllMembers, &vec![], "/anything", "/ws"));
    assert!(!workspace_root_contains(&MemberScan::NotWorkspace, &vec![], "/ws/crates/foo", "/ws"));
}
