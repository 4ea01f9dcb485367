use cargo_fusion::workspace::{resolve_workspace_manifest, ResolveAction, ResolveEvent, WorkspaceError, WorkspaceSearch};

fn text(s: &str) -> Result<String, String> {
    Ok(String::from(s))
}

#[test]
fn member_crate_resolves_to_workspace_root() {
    let (mut search, a) = WorkspaceSearch::start("crates/foo/Cargo.toml");
    assert!(matches!(&a, ResolveAction::Canonicalize(p) if p == "crates/foo/Cargo.toml"));
    let a = resolve_workspace_manifest(&mut search, ResolveEvent::Canonicalized(text("/ws/crates/foo/Cargo.toml")));
    assert!(matches!(&a, ResolveAction::ReadManifest(p) if p == "/ws/crates/foo/Cargo.toml"));
    let a = resolve_workspace_manifest(&mut search, ResolveEvent::ManifestRead(text("[package]\nname = \"foo\"\n")));
    assert!(matches!(&a, ResolveAction::CheckExists(p) if p == "/ws/crates/Cargo.toml"));
    let a = resolve_workspace_manifest(&mut search, ResolveEvent::Exists(false));
    assert!(matches!(&a, ResolveAction::CheckExists(p) if p == "/ws/Cargo.toml"));
    let a = resolve_workspace_manifest(&mut search, ResolveEvent::Exists(true));
    assert!(matches!(&a, ResolveAction::ReadCandidate(p) if p == "/ws/Cargo.toml"));
    let a = resolve_workspace_manifest(
        &mut search,
        ResolveEvent::CandidateRead(text("[workspace]\nmembers = [\"crates/*\"]\n")),
    );
    match &a {
        ResolveAction::CanonicalizeMembers(ps) => assert_eq!(ps, &vec![String::from("/ws/crates/*")]),
        other => panic!("unexpected {:?}", other),
    }
    let a = resolve_workspace_manifest(&mut search, ResolveEvent::MembersCanonicalized(vec![None]));
    match a {
        ResolveAction::Done(Ok(r)) => {
            assert_eq!(r.manifest_path, "/ws/Cargo.toml");
            assert_eq!(r.search_root, "/ws/crates/foo");
            assert!(r.is_crate_mode);
        },
        other => panic!("unexpected {:?}", other),
    }
}

#[test]
fn workspace_root_manifest_is_used_as_is() {
    let (mut search, _) = WorkspaceSearch::start("Cargo.toml");
    resolve_workspace_manifest(&mut search, ResolveEvent::Canonicalized(text("/ws/Cargo.toml")));
    let a = resolve_workspace_manifest(&mut search, ResolveEvent::ManifestRead(text("[workspace]\nmembers = []\n")));
    match a {
        ResolveAction::Done(Ok(r)) => {
            assert_eq!(r.manifest_path, "/ws/Cargo.toml");
            assert_eq!(r.search_root, "/ws");
            assert!(!r.is_crate_mode);
        },
        other => panic!("unexpected {:?}", other),
    }
}

#[test]
fn standalone_crate_without_workspace() {
    let (mut search, _) = WorkspaceSearch::start("Cargo.toml");
    resolve_workspace_manifest(&mut search, ResolveEvent::Canonicalized(text("/a/Cargo.toml")));
    let a = resolve_workspace_manifest(&mut search, ResolveEvent::ManifestRead(text("[package]\n")));
    assert!(matches!(&a, ResolveAction::CheckExists(p) if p == "/Cargo.toml"));
    let a = resolve_workspace_manifest(&mut search, ResolveEvent::Exists(true));
    assert!(matches!(&a, ResolveAction::ReadCandidate(p) if p == "/Cargo.toml"));
    // A workspace above that does not list the crate is passed over.
    let a = resolve_workspace_manifest(&mut search, ResolveEvent::CandidateRead(text("[workspace]\nmembers = [\"b\"]\n")));
    assert!(matches!(&a, ResolveAction::CanonicalizeMembers(_)));
    let a = resolve_workspace_manifest(&mut search, ResolveEvent::MembersCanonicalized(vec![None]));
    match a {
        ResolveAction::Done(Ok(r)) => {
            assert_eq!(r.manifest_path, "/a/Cargo.toml");
            assert_eq!(r.search_root, "/a");
            assert!(!r.is_crate_mode);
        },
        other => panic!("unexpected {:?}", other),
    }
}

#[test]
fn workspace_without_member_list_covers_crate() {
    let (mut search, _) = WorkspaceSearch::start("Cargo.toml");
    resolve_workspace_manifest(&mut search, ResolveEvent::Canonicalized(text("/ws/x/Cargo.toml")));
    resolve_workspace_manifest(&mut search, ResolveEvent::ManifestRead(text("[package]\n")));
    resolve_workspace_manifest(&mut search, ResolveEvent::Exists(true));
    let a = resolve_workspace_manifest(&mut search, ResolveEvent::CandidateRead(text("[workspace]\n")));
    match a {
        ResolveAction::Done(Ok(r)) => {
            assert_eq!(r.manifest_path, "/ws/Cargo.toml");
            assert_eq!(r.search_root, "/ws/x");
            assert!(r.is_crate_mode);
        },
        other => panic!("unexpected {:?}", other),
    }
}

#[test]
fn resolution_errors() {
    let (mut search, _) = WorkspaceSearch::start("nope/Cargo.toml");
    let a = resolve_workspace_manifest(&mut search, ResolveEvent::Canonicalized(Err(String::from("not found"))));
    assert!(matches!(a, ResolveAction::Done(Err(WorkspaceError::Canonicalize(m))) if m == "not found"));

    let (mut search, _) = WorkspaceSearch::start("Cargo.toml");
    resolve_workspace_manifest(&mut search, ResolveEvent::Canonicalized(text("/a/Cargo.toml")));
    let a = resolve_workspace_manifest(&mut search, ResolveEvent::ManifestRead(Err(String::from("denied"))));
    assert!(matches!(a, ResolveAction::Done(Err(WorkspaceError::Read(m))) if m == "denied"));

    let (mut search, _) = WorkspaceSearch::start("Cargo.toml");
    resolve_workspace_manifest(&mut search, ResolveEvent::Canonicalized(text("/w/a/Cargo.toml")));
    resolve_workspace_manifest(&mut search, ResolveEvent::ManifestRead(text("")));
    resolve_workspace_manifest(&mut search, ResolveEvent::Exists(true));
    let a = resolve_workspace_manifest(&mut search, ResolveEvent::CandidateRead(text("[workspace]\nmembers = [")));
    assert!(matches!(a, ResolveAction::Done(Err(WorkspaceError::Parse { manifest, .. })) if manifest == "/w/Cargo.toml"));

    let (mut search, _) = WorkspaceSearch::start("Cargo.toml");
    let a = resolve_workspace_manifest(&mut search, ResolveEvent::Canonicalized(text("/")));
    assert!(matches!(a, ResolveAction::Done(Err(WorkspaceError::NoParent))));
}

#[test]
fn resolution_error_messages() {
    assert_eq!(WorkspaceError::NoParent.message(), "Cargo.toml has no parent directory");
    assert_eq!(WorkspaceError::Read(String::from("denied")).message(), "denied");
    let e = WorkspaceError::Parse { manifest: String::from("/ws/Cargo.toml"), reason: String::from("bad") };
    assert_eq!(e.message(), "failed to parse /ws/Cargo.toml");
}
