use cargo_fusion::text::count_lines;
use cargo_fusion::toc::{generate_table_of_contents, toc_fits, TableOfContents, TOC_FOOTER, TOC_HEADER, TOC_HEADER_LINES};

fn sample_files() -> Vec<(String, Vec<u8>)> {
    vec![
        (String::from("src/a.rs"), b"x\ny\n".to_vec()),
        (String::from("src/b.rs"), b"z".to_vec()),
    ]
}

#[test]
fn count_lines_like_line_iterator() {
    assert_eq!(count_lines(b""), 0);
    assert_eq!(count_lines(b"a"), 1);
    assert_eq!(count_lines(b"a\n"), 1);
    assert_eq!(count_lines(b"a\nb"), 2);
    assert_eq!(count_lines(b"a\r\nb\r\n"), 2);
    assert_eq!(count_lines(b"\n\n"), 2);
    assert_eq!(count_lines(b"\n\nx"), 3);
}

#[test]
fn table_of_contents_entries() {
    let toc = TableOfContents::generate(&sample_files(), 0).unwrap();
    let expected = "// Table of Contents\n// ==================\n// Ln2     : src/a.rs\n// Ln5     : src/b.rs\n// ==================\n";
    assert_eq!(String::from_utf8(toc).unwrap(), expected);
}

#[test]
fn table_of_contents_counts_header_lines() {
    let toc = TableOfContents::generate(&sample_files(), 10).unwrap();
    let text = String::from_utf8(toc).unwrap();
    assert!(text.contains("// Ln12    : src/a.rs\n"));
    assert!(text.contains("// Ln15    : src/b.rs\n"));
    let wide = TableOfContents::generate(&sample_files(), 1234567).unwrap();
    assert!(String::from_utf8(wide).unwrap().contains("// Ln1234569: src/a.rs\n"));
}

#[test]
fn no_files_no_table() {
    assert!(TableOfContents::generate(&[], 0).is_none());
    assert!(generate_table_of_contents(&[], 0).is_none());
}

#[test]
fn header_line_count() {
    assert_eq!(TableOfContents::count_header_lines(None), 0);
    assert_eq!(TableOfContents::count_header_lines(Some(b"a\nb\n")), 2);
    assert_eq!(TableOfContents::count_header_lines(Some(b"")), 0);
}

#[test]
fn fusing_command_table_of_contents() {
    let toc = generate_table_of_contents(&sample_files(), 3).unwrap();
    let expected = "// Table of Contents\n// ==================\n// Ln5      : src/a.rs\n// Ln9      : src/b.rs\n// ==================\n";
    assert_eq!(String::from_utf8(toc).unwrap(), expected);
}

#[test]
fn toc_constants() {
    assert_eq!(TOC_HEADER, "// Table of Contents\n// ==================\n");
    assert_eq!(TOC_FOOTER, "// ==================\n");
    assert_eq!(TOC_HEADER_LINES, 2);
}

#[test]
fn line_numbers_fit_check() {
    assert!(toc_fits(&sample_files(), 2, 1));
    assert!(!toc_fits(&sample_files(), usize::MAX - 2, 1));
    assert!(toc_fits(&[], usize::MAX, 2));
}

#[test]
fn more_header_lines_shift_every_entry() {
    let base = String::from_utf8(TableOfContents::generate(&sample_files(), 4).unwrap()).unwrap();
    let later = String::from_utf8(TableOfContents::generate(&sample_files(), 7).unwrap()).unwrap();
    assert!(base.contains("// Ln6     : src/a.rs\n// Ln9     : src/b.rs\n"));
    assert!(later.contains("// Ln9     : src/a.rs\n// Ln12    : src/b.rs\n"));
}
