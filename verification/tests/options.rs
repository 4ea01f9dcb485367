use cargo_fusion::args::{DateTime, FusionArgs};
use cargo_fusion::filter::{filter_path, should_include_by_metadata, EntryInfo, FileFilter, FileMetadata};
use cargo_fusion::validation::{validate_args, verify_args, ArgsError};

fn base_args() -> FusionArgs {
    FusionArgs {
        stdout: false,
        table_of_contents: false,
        output: String::from("target/fusion.txt"),
        manifest_path: String::from("Cargo.toml"),
        head: None,
        depth: None,
        skip_gitignore: true,
        info: false,
        dependencies: false,
        separator: String::from("//"),
        newer_than: None,
        older_than: None,
        smaller_than: None,
        larger_than: None,
        max_files: None,
        include_paths: Vec::new(),
        extension: vec![String::from("rs"), String::from("toml")],
        exclude: Vec::new(),
        include_metadata: false,
        include_lock: false,
    }
}

fn at(secs: i64) -> DateTime {
    DateTime { secs, nanos: 0 }
}

fn entry(path: &str, len: u64, modified: Option<DateTime>) -> EntryInfo {
    EntryInfo { path: String::from(path), metadata: Some(FileMetadata { len, modified }) }
}

#[test]
fn dates_order() {
    assert!(at(1).is_before(&at(2)));
    assert!(!at(2).is_before(&at(2)));
    assert!(DateTime { secs: 2, nanos: 1 }.is_before(&DateTime { secs: 2, nanos: 2 }));
    assert!(!DateTime { secs: 3, nanos: 0 }.is_before(&DateTime { secs: 2, nanos: 999 }));
}

#[test]
fn validate_accepts_consistent_options() {
    let mut args = base_args();
    assert!(validate_args(&args, true).is_ok());
    args.smaller_than = Some(100);
    args.larger_than = Some(100);
    args.newer_than = Some(at(5));
    args.older_than = Some(at(5));
    assert!(validate_args(&args, true).is_ok());
}

#[test]
fn validate_size_limits() {
    let mut args = base_args();
    args.smaller_than = Some(10);
    args.larger_than = Some(20);
    assert!(matches!(
        validate_args(&args, false),
        Err(ArgsError::SmallerBelowLarger { smaller_than: 10, larger_than: 20 })
    ));
    assert!(matches!(verify_args(&args, true), Err(ArgsError::SmallerBelowLarger { .. })));
}

#[test]
fn validate_date_limits() {
    let mut args = base_args();
    args.newer_than = Some(at(20));
    args.older_than = Some(at(10));
    match validate_args(&args, true) {
        Err(ArgsError::NewerAfterOlder { newer_than, older_than }) => {
            assert_eq!(newer_than.secs, 20);
            assert_eq!(older_than.secs, 10);
        },
        other => panic!("unexpected {:?}", other),
    }
    assert!(matches!(verify_args(&args, true), Err(ArgsError::NewerAfterOlder { .. })));
}

#[test]
fn validate_missing_manifest() {
    let args = base_args();
    assert!(matches!(validate_args(&args, false), Err(ArgsError::ManifestNotFound(p)) if p == "Cargo.toml"));
    assert!(matches!(verify_args(&args, false), Err(ArgsError::ManifestNotFound(p)) if p == "Cargo.toml"));
}

#[test]
fn verify_size_limits() {
    let mut args = base_args();
    args.smaller_than = Some(1000);
    args.larger_than = Some(10);
    assert!(verify_args(&args, true).is_ok());
    args.smaller_than = Some(10);
    args.larger_than = Some(1000);
    assert!(matches!(
        verify_args(&args, true),
        Err(ArgsError::SmallerBelowLarger { smaller_than: 10, larger_than: 1000 })
    ));
}

#[test]
fn refusal_messages() {
    let e = ArgsError::SmallerBelowLarger { smaller_than: 10, larger_than: 20 };
    assert_eq!(String::from_utf8(e.message()).unwrap(), "`smaller_than` (10) cannot be less than `larger_than` (20)");
    let e = ArgsError::NewerAfterOlder { newer_than: at(86400), older_than: at(0) };
    assert_eq!(
        String::from_utf8(e.message()).unwrap(),
        "`newer_than` (1970-01-02 00:00:00) cannot be later than `older_than` (1970-01-01 00:00:00)"
    );
    let e = ArgsError::ManifestNotFound(String::from("/p/Cargo.toml"));
    assert_eq!(String::from_utf8(e.message()).unwrap(), "Cargo.toml not found at /p/Cargo.toml");
}

#[test]
fn filter_by_extension_and_lock() {
    let args = base_args();
    let f = FileFilter::from_args(&args);
    assert!(!f.needs_metadata());
    assert_eq!(f.apply(&entry("/p/src/main.rs", 1, None)), Some(String::from("/p/src/main.rs")));
    assert_eq!(f.apply(&entry("/p/Cargo.toml", 1, None)), Some(String::from("/p/Cargo.toml")));
    assert_eq!(f.apply(&entry("/p/README.md", 1, None)), None);
    assert_eq!(f.apply(&entry("/p/Makefile", 1, None)), None);
    let no_meta = EntryInfo { path: String::from("/p/lib.rs"), metadata: None };
    assert_eq!(f.apply(&no_meta), Some(String::from("/p/lib.rs")));

    let mut with_lock = base_args();
    with_lock.extension.push(String::from("lock"));
    let f = FileFilter::from_args(&with_lock);
    assert_eq!(f.apply(&entry("/p/Cargo.lock", 1, None)), None);
    assert_eq!(f.apply(&entry("/p/other.lock", 1, None)), Some(String::from("/p/other.lock")));
    with_lock.include_lock = true;
    let f = FileFilter::from_args(&with_lock);
    assert_eq!(f.apply(&entry("/p/Cargo.lock", 1, None)), Some(String::from("/p/Cargo.lock")));
}

#[test]
fn filter_by_size_and_date() {
    let mut args = base_args();
    args.smaller_than = Some(100);
    args.larger_than = Some(10);
    args.newer_than = Some(at(1000));
    args.older_than = Some(at(2000));
    let f = FileFilter::from_args(&args);
    assert!(f.needs_metadata());
    assert!(f.apply(&entry("/a.rs", 50, Some(at(1500)))).is_some());
    assert!(f.apply(&entry("/a.rs", 100, Some(at(1000)))).is_some());
    assert!(f.apply(&entry("/a.rs", 10, Some(at(2000)))).is_some());
    assert!(f.apply(&entry("/a.rs", 101, Some(at(1500)))).is_none());
    assert!(f.apply(&entry("/a.rs", 9, Some(at(1500)))).is_none());
    assert!(f.apply(&entry("/a.rs", 50, Some(at(999)))).is_none());
    assert!(f.apply(&entry("/a.rs", 50, Some(at(2001)))).is_none());
    assert!(f.apply(&entry("/a.rs", 50, None)).is_none());
    assert!(f.apply(&EntryInfo { path: String::from("/a.rs"), metadata: None }).is_none());
}

#[test]
fn older_filtering_path() {
    let exts = vec![String::from("rs")];
    let e = entry("/a.rs", 5, None);
    assert!(should_include_by_metadata(&e, None, None, None, None));
    assert!(!should_include_by_metadata(&e, None, None, Some(at(1)), None));
    let no_meta = EntryInfo { path: String::from("/a.rs"), metadata: None };
    assert!(!should_include_by_metadata(&no_meta, None, None, None, None));
    assert_eq!(filter_path(&exts, None, None, None, None, false, &e), Some(String::from("/a.rs")));
    assert_eq!(filter_path(&exts, None, None, None, None, false, &no_meta), None);
    assert_eq!(filter_path(&exts, Some(4), None, None, None, false, &e), None);
    assert_eq!(filter_path(&exts, None, None, None, None, false, &entry("/a.txt", 5, None)), None);
}

#[test]
fn looser_limits_keep_files() {
    let mut tight = base_args();
    tight.smaller_than = Some(100);
    tight.larger_than = Some(10);
    let mut loose = base_args();
    loose.smaller_than = Some(200);
    let e = entry("/a.rs", 50, None);
    assert!(FileFilter::from_args(&tight).apply(&e).is_some());
    assert!(FileFilter::from_args(&loose).apply(&e).is_some());
    let big = entry("/a.rs", 150, None);
    assert!(FileFilter::from_args(&tight).apply(&big).is_none());
    assert!(FileFilter::from_args(&loose).apply(&big).is_some());
}
