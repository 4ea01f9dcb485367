use cargo_fusion::manifest::{
    collect_all_path_dependencies, collect_dependencies_with_workspace, collect_path_dependencies, get_package,
    get_package_authors, get_package_description, get_package_license, get_package_name, get_package_repository,
    get_package_version, get_workspace_members, is_workspace_manifest, is_workspace_root, DependencyDetail,
    DependencyInfo, DependencyWalk, ManifestError, ManifestInfo, PackageInfo, WalkAction, WalkEvent,
    WorkspaceDependencyWalk,
};
use cargo_fusion::workspace::contains_workspace_table;
use std::path::PathBuf;

fn package(name: &str, version: &str) -> PackageInfo {
    PackageInfo {
        name: name.to_string(),
        version: version.to_string(),
        description: None,
        authors: Vec::new(),
        license: None,
        repository: None,
        readme: None,
    }
}

fn path_dep(name: &str, path: &str) -> DependencyInfo {
    DependencyInfo {
        name: name.to_string(),
        detail: Some(DependencyDetail { path: Some(path.to_string()), optional: false }),
    }
}

fn manifest_with(deps: Vec<DependencyInfo>) -> ManifestInfo {
    ManifestInfo { package: Some(package("p", "0.1.0")), workspace_members: None, dependencies: deps }
}

#[test]
fn test_is_workspace_root() {
    let text = r#"
            [workspace]
            members = ["crates/*"]
        "#;
    assert!(contains_workspace_table(text));
    let manifest = ManifestInfo {
        package: None,
        workspace_members: Some(vec![String::from("crates/*")]),
        dependencies: Vec::new(),
    };
    assert!(is_workspace_root(&manifest));
}

#[test]
fn test_collect_path_dependencies() {
    let dir = tempfile::tempdir().unwrap();
    let deps_dir = dir.path().join("deps");

    let manifest = ManifestInfo {
        package: Some(package("test", "0.1.0")),
        workspace_members: None,
        dependencies: vec![path_dep("my-dep", &deps_dir.display().to_string())],
    };
    let deps = collect_path_dependencies(&manifest, dir.path().to_str().unwrap()).unwrap();

    assert_eq!(deps.len(), 1);
    assert_eq!(deps[0].name, "my-dep");
    assert_eq!(PathBuf::from(&deps[0].path), deps_dir);
}

#[test]
fn path_dependencies_are_joined_and_filtered() {
    let manifest = manifest_with(vec![
        DependencyInfo { name: String::from("serde"), detail: None },
        path_dep("local", "../local"),
        DependencyInfo {
            name: String::from("opt"),
            detail: Some(DependencyDetail { path: Some(String::from("opt")), optional: true }),
        },
        DependencyInfo { name: String::from("git"), detail: Some(DependencyDetail { path: None, optional: false }) },
    ]);
    let deps = collect_path_dependencies(&manifest, "/work/app").unwrap();
    assert_eq!(deps.len(), 2);
    assert_eq!(deps[0].name, "local");
    assert_eq!(deps[0].path, "/work/app/../local");
    assert!(!deps[0].optional);
    assert_eq!(deps[1].path, "/work/app/opt");
    assert!(deps[1].optional);
}

#[test]
fn package_queries() {
    let mut p = package("demo", "1.2.3");
    p.description = Some(String::from("A demo"));
    p.authors = vec![String::from("Ann"), String::from("Bob")];
    p.license = Some(String::from("MIT"));
    p.repository = Some(String::from("https://example.org/demo"));
    let m = ManifestInfo { package: Some(p), workspace_members: None, dependencies: Vec::new() };
    assert_eq!(get_package(&m).unwrap().name, "demo");
    assert_eq!(get_package_name(&m).unwrap(), "demo");
    assert_eq!(get_package_version(&m).unwrap(), "1.2.3");
    assert_eq!(get_package_description(&m), Some(String::from("A demo")));
    assert_eq!(get_package_authors(&m), vec![String::from("Ann"), String::from("Bob")]);
    assert_eq!(get_package_license(&m), Some(String::from("MIT")));
    assert_eq!(get_package_repository(&m), Some(String::from("https://example.org/demo")));
    assert!(!is_workspace_root(&m));
    assert!(get_workspace_members(&m).is_empty());
}

#[test]
fn queries_without_package() {
    let m = ManifestInfo {
        package: None,
        workspace_members: Some(vec![String::from("a"), String::from("b")]),
        dependencies: Vec::new(),
    };
    assert!(matches!(get_package(&m), Err(ManifestError::NoPackage)));
    assert!(matches!(get_package_name(&m), Err(ManifestError::NoPackage)));
    assert!(matches!(get_package_version(&m), Err(ManifestError::NoPackage)));
    assert_eq!(get_package_description(&m), None);
    assert!(get_package_authors(&m).is_empty());
    assert_eq!(get_package_license(&m), None);
    assert_eq!(get_package_repository(&m), None);
    assert_eq!(get_workspace_members(&m), vec![String::from("a"), String::from("b")]);
}

#[test]
fn workspace_manifest_from_parse_result() {
    let ws = ManifestInfo { package: None, workspace_members: Some(Vec::new()), dependencies: Vec::new() };
    assert!(matches!(is_workspace_manifest(Ok(ws)), Ok(true)));
    assert!(matches!(is_workspace_manifest(Ok(manifest_with(Vec::new()))), Ok(false)));
    let failed = is_workspace_manifest(Err(ManifestError::Unreadable(String::from("bad"))));
    assert!(matches!(failed, Err(ManifestError::Unreadable(m)) if m == "bad"));
}

#[test]
fn dependency_walk_visits_each_directory_once() {
    let (mut walk, first) = DependencyWalk::start("/p/Cargo.toml", Vec::new());
    assert!(matches!(&first, WalkAction::LoadManifest(p) if p == "/p/Cargo.toml"));

    let root = manifest_with(vec![path_dep("a", "/p/../a"), path_dep("b", "b")]);
    let a = collect_all_path_dependencies(&mut walk, WalkEvent::ManifestLoaded(Ok(root)));
    assert!(matches!(&a, WalkAction::CheckExists(p) if p == "/p/../a/Cargo.toml"));

    let a = collect_all_path_dependencies(&mut walk, WalkEvent::Exists(false));
    assert!(matches!(&a, WalkAction::CheckExists(p) if p == "/p/b/Cargo.toml"));

    let a = collect_all_path_dependencies(&mut walk, WalkEvent::Exists(true));
    assert!(matches!(&a, WalkAction::LoadManifest(p) if p == "/p/b/Cargo.toml"));

    // `b` depends on `a` again and on a new `c`.
    let b = manifest_with(vec![path_dep("a", "/p/../a/"), path_dep("c", "c")]);
    let a = collect_all_path_dependencies(&mut walk, WalkEvent::ManifestLoaded(Ok(b)));
    assert!(matches!(&a, WalkAction::CheckExists(p) if p == "/p/b/c/Cargo.toml"));

    let a = collect_all_path_dependencies(&mut walk, WalkEvent::Exists(false));
    match a {
        WalkAction::Done(Ok(found)) => {
            assert_eq!(found, vec![String::from("/p/../a"), String::from("/p/b"), String::from("/p/b/c")])
        },
        other => panic!("unexpected {:?}", other),
    }
}

#[test]
fn dependency_walk_skips_already_visited() {
    let (mut walk, _) = DependencyWalk::start("/p/Cargo.toml", vec![String::from("/p/b")]);
    let root = manifest_with(vec![path_dep("b", "b")]);
    let a = collect_all_path_dependencies(&mut walk, WalkEvent::ManifestLoaded(Ok(root)));
    match a {
        WalkAction::Done(Ok(found)) => assert!(found.is_empty()),
        other => panic!("unexpected {:?}", other),
    }
}

#[test]
fn dependency_walk_stops_on_unreadable_manifest() {
    let (mut walk, _) = DependencyWalk::start("/p/Cargo.toml", Vec::new());
    let a = collect_all_path_dependencies(
        &mut walk,
        WalkEvent::ManifestLoaded(Err(ManifestError::Unreadable(String::from("no such file")))),
    );
    assert!(matches!(a, WalkAction::Done(Err(ManifestError::Unreadable(m))) if m == "no such file"));
}

#[test]
fn dependency_walk_needs_a_parent_directory() {
    let (_, a) = DependencyWalk::start("", Vec::new());
    assert!(matches!(a, WalkAction::Done(Err(ManifestError::NoParent))));
}

#[test]
fn fusing_walk_reports_every_dependency() {
    let root = manifest_with(vec![path_dep("a", "a"), path_dep("b", "b")]);
    let (mut walk, first) = WorkspaceDependencyWalk::start(&root, "/p/Cargo.toml", true);
    assert!(matches!(&first, WalkAction::CheckExists(p) if p == "/p/a/Cargo.toml"));

    let a = collect_dependencies_with_workspace(&mut walk, WalkEvent::Exists(true));
    assert!(matches!(&a, WalkAction::LoadManifest(p) if p == "/p/a/Cargo.toml"));

    // `a` depends on `b` too: it is reported again.
    let child = manifest_with(vec![path_dep("b", "../b")]);
    let a = collect_dependencies_with_workspace(&mut walk, WalkEvent::ManifestLoaded(Ok(child)));
    assert!(matches!(&a, WalkAction::CheckExists(p) if p == "/p/a/../b/Cargo.toml"));

    let a = collect_dependencies_with_workspace(&mut walk, WalkEvent::Exists(false));
    assert!(matches!(&a, WalkAction::CheckExists(p) if p == "/p/b/Cargo.toml"));

    let a = collect_dependencies_with_workspace(&mut walk, WalkEvent::Exists(true));
    assert!(matches!(&a, WalkAction::LoadManifest(p) if p == "/p/b/Cargo.toml"));

    let a = collect_dependencies_with_workspace(
        &mut walk,
        WalkEvent::ManifestLoaded(Err(ManifestError::Unreadable(String::from("broken")))),
    );
    match a {
        WalkAction::Done(Ok(found)) => assert_eq!(
            found,
            vec![String::from("/p/a"), String::from("/p/a/../b"), String::from("/p/b")]
        ),
        other => panic!("unexpected {:?}", other),
    }
}

#[test]
fn fusing_walk_without_recursion() {
    let root = manifest_with(vec![path_dep("a", "a")]);
    let (mut walk, _) = WorkspaceDependencyWalk::start(&root, "/p/Cargo.toml", false);
    let a = collect_dependencies_with_workspace(&mut walk, WalkEvent::Exists(true));
    match a {
        WalkAction::Done(Ok(found)) => assert_eq!(found, vec![String::from("/p/a")]),
        other => panic!("unexpected {:?}", other),
    }
    let (_, none) = WorkspaceDependencyWalk::start(&manifest_with(Vec::new()), "/p/Cargo.toml", true);
    assert!(matches!(none, WalkAction::Done(Ok(v)) if v.is_empty()));
    let (_, orphan) = WorkspaceDependencyWalk::start(&root, "/", true);
    assert!(matches!(orphan, WalkAction::Done(Err(ManifestError::NoParent))));
}

#[test]
fn dependency_walk_ends_on_a_cycle_through_parent_dirs() {
    // /w/a depends on ../b and /w/b depends on ../a.
    let (mut walk, _) = DependencyWalk::start("/w/a/Cargo.toml", Vec::new());
    let a = manifest_with(vec![path_dep("b", "../b")]);
    let b = manifest_with(vec![path_dep("a", "../a")]);
    let act = collect_all_path_dependencies(&mut walk, WalkEvent::ManifestLoaded(Ok(a)));
    assert!(matches!(&act, WalkAction::CheckExists(p) if p == "/w/a/../b/Cargo.toml"));
    let act = collect_all_path_dependencies(&mut walk, WalkEvent::Exists(true));
    assert!(matches!(&act, WalkAction::LoadManifest(p) if p == "/w/a/../b/Cargo.toml"));
    let act = collect_all_path_dependencies(&mut walk, WalkEvent::ManifestLoaded(Ok(b)));
    assert!(matches!(&act, WalkAction::CheckExists(p) if p == "/w/a/../b/../a/Cargo.toml"));
    let act = collect_all_path_dependencies(&mut walk, WalkEvent::Exists(true));
    assert!(matches!(&act, WalkAction::LoadManifest(_)));
    let a_again = manifest_with(vec![path_dep("b", "../b")]);
    let act = collect_all_path_dependencies(&mut walk, WalkEvent::ManifestLoaded(Ok(a_again)));
    match act {
        WalkAction::Done(Ok(found)) => {
            assert_eq!(found, vec![String::from("/w/a/../b"), String::from("/w/a/../b/../a")])
        },
        other => panic!("unexpected {:?}", other),
    }
    assert_eq!(walk.into_visited(), vec![String::from("/w/a/../b"), String::from("/w/a/../b/../a")]);
}

#[test]
fn visited_set_is_handed_back() {
    let (mut walk, _) = DependencyWalk::start("/p/Cargo.toml", vec![String::from("/q")]);
    let root = manifest_with(vec![path_dep("q", "/q"), path_dep("r", "r")]);
    let act = collect_all_path_dependencies(&mut walk, WalkEvent::ManifestLoaded(Ok(root)));
    assert!(matches!(&act, WalkAction::CheckExists(p) if p == "/p/r/Cargo.toml"));
    collect_all_path_dependencies(&mut walk, WalkEvent::Exists(false));
    assert_eq!(walk.into_visited(), vec![String::from("/q"), String::from("/p/r")]);
}
