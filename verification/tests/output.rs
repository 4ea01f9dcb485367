use cargo_fusion::args::FusionArgs;
use cargo_fusion::collector::{info_summary, total_lines, CollectError, FileCollector};
use cargo_fusion::filter::{EntryInfo, FileFilter, FileMetadata};
use cargo_fusion::manifest::{ManifestError, ManifestInfo, PackageInfo};
use cargo_fusion::metadata::{readme_candidates, ProjectMetadata};
use cargo_fusion::workspace::WorkspaceResolution;
use cargo_fusion::writer::{write_files, write_header, write_metadata, write_output, write_toc};

fn base_args() -> FusionArgs {
    FusionArgs {
        stdout: true,
        table_of_contents: false,
        output: String::from("out.txt"),
        manifest_path: String::from("/p/Cargo.toml"),
        head: None,
        depth: None,
        skip_gitignore: true,
        info: false,
        dependencies: false,
        separator: String::from("//"),
        newer_than: None,
        older_than: None,
        smaller_than: None,
        larger_than: None,
        max_files: None,
        include_paths: Vec::new(),
        extension: vec![String::from("rs")],
        exclude: Vec::new(),
        include_metadata: false,
        include_lock: false,
    }
}

fn metadata() -> ProjectMetadata {
    ProjectMetadata::new(
        String::from("demo"),
        String::from("1.0.0"),
        Some(String::from("A demo crate")),
        Some(String::from("# Demo\r\nUse it.")),
        Some(String::from("https://example.org/demo")),
        vec![String::from("Ann"), String::from("Bob")],
        Some(String::from("MIT")),
    )
}

const RENDERED: &str = "// Project: demo (v1.0.0)\n// Description: A demo crate\n// Authors: Ann, Bob\n// License: MIT\n// Repository: https://example.org/demo\n\n// README\n// ======\n// # Demo\n// Use it.\n// ======\n\n";

fn entry(path: &str) -> EntryInfo {
    EntryInfo { path: String::from(path), metadata: None }
}

#[test]
fn metadata_block() {
    assert_eq!(metadata().render(), RENDERED);
    let bare = ProjectMetadata::new(String::from("x"), String::from("0.1.0"), None, None, None, Vec::new(), None);
    assert_eq!(bare.render(), "// Project: x (v0.1.0)\n");
}

#[test]
fn metadata_from_manifest() {
    let package = PackageInfo {
        name: String::from("demo"),
        version: String::from("1.0.0"),
        description: Some(String::from("A demo crate")),
        authors: vec![String::from("Ann"), String::from("Bob")],
        license: Some(String::from("MIT")),
        repository: Some(String::from("https://example.org/demo")),
        readme: None,
    };
    let manifest = ManifestInfo { package: Some(package), workspace_members: None, dependencies: Vec::new() };
    let m = ProjectMetadata::from_manifest(&manifest, Some(String::from("# Demo\r\nUse it."))).unwrap();
    assert_eq!(m.render(), RENDERED);
    let none = ManifestInfo { package: None, workspace_members: None, dependencies: Vec::new() };
    assert!(matches!(ProjectMetadata::from_manifest(&none, None), Err(ManifestError::NoPackage)));
}

fn bare_package(readme: Option<&str>) -> PackageInfo {
    PackageInfo {
        name: String::from("demo"),
        version: String::from("1.0.0"),
        description: None,
        authors: Vec::new(),
        license: None,
        repository: None,
        readme: readme.map(String::from),
    }
}

#[test]
fn readme_places() {
    let manifest = ManifestInfo { package: Some(bare_package(None)), workspace_members: None, dependencies: Vec::new() };
    let v = readme_candidates("/p/Cargo.toml", &manifest).unwrap();
    assert_eq!(v, vec!["/p/README.md", "/p/README", "/p/Readme.md", "/p/README.txt"]);
    let manifest = ManifestInfo {
        package: Some(bare_package(Some("docs/INTRO.md"))),
        workspace_members: None,
        dependencies: Vec::new(),
    };
    assert_eq!(readme_candidates("/p/Cargo.toml", &manifest).unwrap(), vec!["/p/docs/INTRO.md"]);
    assert!(matches!(readme_candidates("/", &manifest), Err(ManifestError::NoParent)));
    let none = ManifestInfo { package: None, workspace_members: None, dependencies: Vec::new() };
    assert!(matches!(readme_candidates("/p/Cargo.toml", &none), Err(ManifestError::NoPackage)));
}

#[test]
fn whole_output_in_order() {
    let args = base_args();
    let files = vec![
        (String::from("/p/src/a.rs"), b"fn a() {}".to_vec()),
        (String::from("/p/src/b.rs"), b"fn b() {}\n".to_vec()),
    ];
    let out = write_output(
        &args,
        files,
        Some(metadata()),
        Some(b"TOC\n".to_vec()),
        Some(b"HEAD\n".to_vec()),
    );
    let expected = format!(
        "HEAD\n{}TOC\n// /p/src/a.rs\nfn a() {{}}\n// /p/src/b.rs\nfn b() {{}}\n\n",
        RENDERED
    );
    assert_eq!(String::from_utf8(out).unwrap(), expected);
    let bare = write_output(&args, Vec::new(), None, None, None);
    assert!(bare.is_empty());
}

#[test]
fn output_pieces() {
    let mut w: Vec<u8> = Vec::new();
    write_header(&mut w, Some(b"H"));
    write_header(&mut w, None);
    write_metadata(&mut w, None);
    write_toc(&mut w, Some(b"T".to_vec()));
    write_toc(&mut w, None);
    write_files(&mut w, &[(String::from("x.rs"), b"1".to_vec())], "#");
    assert_eq!(w, b"HT# x.rs\n1\n".to_vec());
}

#[test]
fn search_paths_sorted_without_repeats() {
    let mut args = base_args();
    args.include_paths = vec![String::from("/p/extra"), String::from("/missing"), String::from("/p/src")];
    args.dependencies = true;
    let resolution = WorkspaceResolution {
        manifest_path: String::from("/p/Cargo.toml"),
        search_root: String::from("/p/src"),
        is_crate_mode: false,
    };
    let paths = FileCollector::build_search_paths(
        &args,
        &resolution,
        &vec![true, false, true],
        vec![String::from("/dep"), String::from("/p/extra")],
    )
    .unwrap();
    assert_eq!(paths, vec!["/dep", "/p/extra", "/p/src"]);
    args.dependencies = false;
    let paths = FileCollector::build_search_paths(&args, &resolution, &vec![false, false, false], vec![String::from("/dep")])
        .unwrap();
    assert_eq!(paths, vec!["/p/src"]);
}

#[test]
fn include_paths_that_exist() {
    let mut args = base_args();
    args.include_paths = vec![String::from("a"), String::from("b"), String::from("c")];
    assert_eq!(FileCollector::get_valid_include_paths(&args, &vec![true, false, true]), vec!["a", "c"]);
}

#[test]
fn dedup_search_paths() {
    let v = FileCollector::deduplicate_paths(vec![String::from("b"), String::from("a"), String::from("b")]).unwrap();
    assert_eq!(v, vec!["a", "b"]);
    assert!(matches!(FileCollector::deduplicate_paths(Vec::new()), Err(CollectError::NoSearchPaths)));
    // Of paths that name the same directory, the first one given is kept.
    let v = FileCollector::deduplicate_paths(vec![String::from("b/"), String::from("a"), String::from("b")]).unwrap();
    assert_eq!(v, vec!["a", "b/"]);
    let v = FileCollector::deduplicate_paths(vec![String::from("x//y"), String::from("x/y")]).unwrap();
    assert_eq!(v, vec!["x//y"]);
}

#[test]
fn file_limit() {
    let files = vec![String::from("a"), String::from("b"), String::from("c")];
    assert_eq!(FileCollector::apply_file_limit(files.clone(), Some(2)), vec!["a", "b"]);
    assert_eq!(FileCollector::apply_file_limit(files.clone(), Some(3)), vec!["a", "b", "c"]);
    assert_eq!(FileCollector::apply_file_limit(files.clone(), None), vec!["a", "b", "c"]);
    assert!(FileCollector::apply_file_limit(files, Some(0)).is_empty());
}

#[test]
fn selecting_and_finding_files() {
    let args = base_args();
    let filter = FileFilter::from_args(&args);
    let entries = vec![entry("/p/a.rs"), entry("/p/b.md"), entry("/p/c.rs"), entry("/p/d.rs")];
    assert_eq!(FileCollector::select_files(&entries, &filter).unwrap(), vec!["/p/a.rs", "/p/c.rs", "/p/d.rs"]);
    assert_eq!(FileCollector::find_files(&entries, &filter, Some(2)).unwrap(), vec!["/p/a.rs", "/p/c.rs"]);
    let none = vec![entry("/p/b.md")];
    assert!(matches!(FileCollector::select_files(&none, &filter), Err(CollectError::NoFilesFound)));
    assert!(matches!(FileCollector::find_files(&none, &filter, None), Err(CollectError::NoFilesFound)));
}

#[test]
fn directories_replaced_by_their_files() {
    let paths = vec![String::from("/p/a.rs"), String::from("/p/dir"), String::from("/p/b.rs")];
    let walked = vec![String::from("/p/dir/x.rs")];
    let r = FileCollector::reduce_dir_list(paths, &vec![false, true, false], walked);
    assert_eq!(r, vec!["/p/a.rs", "/p/b.rs", "/p/dir/x.rs"]);
    // Reducing again, with no directory left and nothing walked, changes nothing.
    let again = FileCollector::reduce_dir_list(r.clone(), &vec![false, false, false], Vec::new());
    assert_eq!(again, r);
}

#[test]
fn read_files_sorted_and_failures_dropped() {
    let reads = vec![
        (String::from("/p/b.rs"), Some(b"b".to_vec())),
        (String::from("/p/gone.rs"), None),
        (String::from("/p/a/z.rs"), Some(b"z".to_vec())),
        (String::from("/p/a-x.rs"), Some(b"x".to_vec())),
    ];
    let files = FileCollector::read_files(reads).unwrap();
    let names: Vec<&str> = files.iter().map(|(p, _)| p.as_str()).collect();
    assert_eq!(names, vec!["/p/a/z.rs", "/p/a-x.rs", "/p/b.rs"]);
    assert_eq!(files[0].1, b"z".to_vec());
    let failed = vec![(String::from("/p/gone.rs"), None)];
    assert!(matches!(FileCollector::read_files(failed), Err(CollectError::NoFilesRead)));
}

#[test]
fn exclude_overrides() {
    let mut args = base_args();
    assert!(FileCollector::exclude_globs(&args).is_empty());
    assert!(FileCollector::build_exclude_overrides(&args).is_none());
    args.exclude = vec![String::from("target/**"), String::from("*.md")];
    assert_eq!(FileCollector::exclude_globs(&args), vec![String::from("!target/**"), String::from("!*.md")]);
    let overrides = FileCollector::build_exclude_overrides(&args).unwrap();
    assert!(overrides.matched("target/debug/x.rs", false).is_ignore());
    assert!(overrides.matched("README.md", false).is_ignore());
    assert!(!overrides.matched("src/main.rs", false).is_ignore());
    // A pattern that does not parse is skipped; the others still apply.
    args.exclude = vec![String::from("a[b"), String::from("*.md")];
    let overrides = FileCollector::build_exclude_overrides(&args).unwrap();
    assert_eq!(overrides.num_ignores(), 1);
    assert!(overrides.matched("README.md", false).is_ignore());
    assert_eq!(FileCollector::refused_excludes(&args), vec![String::from("a[b")]);
    // A single ordinary pattern gives overrides.
    args.exclude = vec![String::from("target")];
    let overrides = FileCollector::build_exclude_overrides(&args).unwrap();
    assert!(overrides.matched("target", true).is_ignore());
    assert_eq!(overrides.path(), std::path::Path::new("."));
    assert!(FileCollector::refused_excludes(&args).is_empty());
}

#[test]
fn failure_messages() {
    assert_eq!(ProjectMetadata::failure_message(&ManifestError::NoPackage), "No package section found in Cargo.toml");
    assert_eq!(ProjectMetadata::failure_message(&ManifestError::NoParent), "Manifest path has no parent");
    assert_eq!(ManifestError::NoPackage.message(), "No [package] section found in Cargo.toml");
    assert_eq!(ManifestError::Unreadable(String::from("bad")).message(), "bad");
    assert_eq!(CollectError::NoSearchPaths.message(), "No search paths found");
    assert_eq!(CollectError::NoFilesFound.message(), "No files found to include");
    assert_eq!(CollectError::NoFilesRead.message(), "No files could be read successfully");
}

#[test]
fn line_totals() {
    let files = vec![(String::from("a"), b"1\n2\n".to_vec()), (String::from("b"), b"3".to_vec())];
    assert_eq!(total_lines(&files), Some(3));
    assert_eq!(total_lines(&[]), Some(0));
}

#[test]
fn filtering_walked_entries() {
    let mut args = base_args();
    let with_meta = |p: &str, len: u64| EntryInfo { path: String::from(p), metadata: Some(FileMetadata { len, modified: None }) };
    let entries = vec![with_meta("/p/a.rs", 10), entry("/p/b.rs"), with_meta("/p/c.md", 1), with_meta("/p/Cargo.lock", 1)];
    assert_eq!(FileCollector::filter_entries(&entries, &args).unwrap(), vec!["/p/a.rs"]);
    args.smaller_than = Some(5);
    assert!(matches!(FileCollector::filter_entries(&entries, &args), Err(CollectError::NoFilesFound)));
}

#[test]
fn information_summary() {
    let files = vec![(String::from("a"), b"1\n2\n".to_vec()), (String::from("b"), b"3".to_vec())];
    let text = info_summary(&files, 2, 7).unwrap();
    assert_eq!(String::from_utf8(text).unwrap(), "Found 2 files\nTotal Lines of Code: 3\nTime Elapsed: 2.007s");
    let text = info_summary(&[], 0, 450).unwrap();
    assert_eq!(String::from_utf8(text).unwrap(), "Found 0 files\nTotal Lines of Code: 0\nTime Elapsed: 0.450s");
    let text = info_summary(&files, 11, 36).unwrap();
    assert!(String::from_utf8(text).unwrap().ends_with("11.036s"));
}

#[test]
fn walk_settings_of_options() {
    let mut args = base_args();
    args.depth = Some(3);
    args.skip_gitignore = false;
    let w = FileCollector::walk_settings(&args);
    assert_eq!(w.max_depth, Some(3));
    assert!(!w.standard_filters);
    assert!(!w.follow_links);
    assert!(w.same_file_system);
}

#[test]
fn reduce_then_limit() {
    let paths = vec![String::from("/p/a.rs"), String::from("/p/dir"), String::from("/p/b.rs")];
    let walked = vec![String::from("/p/dir/x.rs"), String::from("/p/dir/y.rs")];
    let (files, found) = FileCollector::reduce_and_limit(paths, &vec![false, true, false], walked, Some(3));
    assert_eq!(found, 4);
    assert_eq!(files, vec!["/p/a.rs", "/p/b.rs", "/p/dir/x.rs"]);
}
