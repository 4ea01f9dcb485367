//! The table of contents: one entry per fused file with a running line
//! number, which starts after the header lines and advances by each file's
//! line count plus its separator lines.

use vstd::prelude::*;
use crate::text::{count_lines, decimal, left_aligned, line_count, push_bytes, push_decimal_left_aligned, push_str};

verus! {

/// First header line of a table of contents.
pub const TOC_HEADER: &'static str = "// Table of Contents\n// ==================\n";

/// Closing line of a table of contents.
pub const TOC_FOOTER: &'static str = "// ==================\n";

/// Number of lines that [`TOC_HEADER`] occupies.
pub const TOC_HEADER_LINES: usize = 2;

/// Line number reached after listing `files`, when the first entry is at
/// `first` and each file advances the count by its lines plus `extra`.
pub open spec fn line_after(files: Seq<(String, Vec<u8>)>, first: nat, extra: nat) -> nat
    decreases files.len(),
{
    if files.len() == 0 {
        first
    } else {
        line_after(files.drop_last(), first, extra) + line_count(files.last().1@) + extra
    }
}

/// One entry: `// Ln<line, left-aligned in 6> <sep><path>\n`.
pub open spec fn toc_entry(line: nat, path: Seq<char>, sep: Seq<u8>) -> Seq<u8> {
    seq![47u8, 47u8, 32u8, 76u8, 110u8] + left_aligned(decimal(line), 6) + sep
        + vstd::utf8::encode_utf8(path) + seq![10u8]
}

/// All entries for `files`, the first one at line `first`.
pub open spec fn toc_entries(files: Seq<(String, Vec<u8>)>, first: nat, extra: nat, sep: Seq<u8>) -> Seq<u8>
    decreases files.len(),
{
    if files.len() == 0 {
        seq![]
    } else {
        toc_entries(files.drop_last(), first, extra, sep) + toc_entry(
            line_after(files.drop_last(), first, extra),
            files.last().0@,
            sep,
        )
    }
}

/// The bytes of a table of contents: header, entries, footer.
pub open spec fn toc_text(files: Seq<(String, Vec<u8>)>, first: nat, extra: nat, sep: Seq<u8>) -> Seq<u8> {
    vstd::utf8::encode_utf8(TOC_HEADER@) + toc_entries(files, first, extra, sep)
        + vstd::utf8::encode_utf8(TOC_FOOTER@)
}

/// The line number of each file's entry: the number reached after the files before it.
pub open spec fn entry_lines(files: Seq<(String, Vec<u8>)>, first: nat, extra: nat) -> Seq<nat> {
    Seq::new(files.len(), |i: int| line_after(files.subrange(0, i), first, extra))
}

/// The entries for `files` with the given line numbers.
pub open spec fn entries_with(files: Seq<(String, Vec<u8>)>, lines: Seq<nat>, sep: Seq<u8>) -> Seq<u8>
    decreases files.len(),
{
    if files.len() == 0 {
        seq![]
    } else {
        entries_with(files.drop_last(), lines.drop_last(), sep) + toc_entry(lines.last(), files.last().0@, sep)
    }
}

proof fn lemma_entries_by_lines(files: Seq<(String, Vec<u8>)>, first: nat, extra: nat, sep: Seq<u8>)
    ensures
        toc_entries(files, first, extra, sep) == entries_with(files, entry_lines(files, first, extra), sep),
    decreases files.len(),
{
    if files.len() > 0 {
        let d = files.drop_last();
        lemma_entries_by_lines(d, first, extra, sep);
        assert(entry_lines(files, first, extra).drop_last() =~= entry_lines(d, first, extra)) by {
            assert forall|i: int| 0 <= i < d.len() implies files.subrange(0, i) == d.subrange(0, i) by {
                assert(files.subrange(0, i) =~= d.subrange(0, i));
            }
        }
        assert(files.subrange(0, files.len() - 1) =~= d);
    }
}

proof fn lemma_line_after_shift(files: Seq<(String, Vec<u8>)>, first: nat, extra: nat, k: nat)
    ensures
        line_after(files, first + k, extra) == line_after(files, first, extra) + k,
    decreases files.len(),
{
    if files.len() > 0 {
        lemma_line_after_shift(files.drop_last(), first, extra, k);
    }
}

/// A table is its header, one entry per file with the number of
/// [`entry_lines`], and its footer; starting `k` lines later moves every
/// entry's line number on by `k` and leaves the rest of the table as it is.
pub proof fn lemma_toc_shift(files: Seq<(String, Vec<u8>)>, first: nat, extra: nat, k: nat, sep: Seq<u8>)
    ensures
        toc_text(files, first, extra, sep) == vstd::utf8::encode_utf8(TOC_HEADER@) + entries_with(
            files,
            entry_lines(files, first, extra),
            sep,
        ) + vstd::utf8::encode_utf8(TOC_FOOTER@),
        toc_text(files, first + k, extra, sep) == vstd::utf8::encode_utf8(TOC_HEADER@) + entries_with(
            files,
            entry_lines(files, first, extra).map_values(|n: nat| n + k),
            sep,
        ) + vstd::utf8::encode_utf8(TOC_FOOTER@),
{
    lemma_entries_by_lines(files, first, extra, sep);
    lemma_entries_by_lines(files, first + k, extra, sep);
    assert(entry_lines(files, first + k, extra) =~= entry_lines(files, first, extra).map_values(|n: nat| n + k)) by {
        assert forall|i: int| 0 <= i < files.len() implies #[trigger] entry_lines(files, first + k, extra)[i]
            == entry_lines(files, first, extra)[i] + k by {
            lemma_line_after_shift(files.subrange(0, i), first, extra, k);
        }
    }
}

/// Separator between line number and path in [`TableOfContents::generate`]: `": "`.
pub open spec fn colon_sep() -> Seq<u8> {
    seq![58u8, 32u8]
}

/// Separator between line number and path in [`generate_table_of_contents`]: `" : "`.
pub open spec fn spaced_colon_sep() -> Seq<u8> {
    seq![32u8, 58u8, 32u8]
}

proof fn lemma_line_after_mono(files: Seq<(String, Vec<u8>)>, first: nat, extra: nat, i: int)
    requires
        0 <= i <= files.len(),
    ensures
        line_after(files.subrange(0, i), first, extra) <= line_after(files, first, extra),
    decreases files.len() - i,
{
    if i < files.len() {
        lemma_line_after_mono(files, first, extra, i + 1);
        assert(files.subrange(0, i + 1).drop_last() =~= files.subrange(0, i));
    } else {
        assert(files.subrange(0, i) =~= files);
    }
}

/// Writes header, entries and footer; `first` is the line of the first entry.
fn build_toc(files: &[(String, Vec<u8>)], first: usize, extra: usize, sep: &[u8]) -> (toc: Vec<u8>)
    requires
        extra <= 2,
        line_after(files@, first as nat, extra as nat) <= usize::MAX,
    ensures
        toc@ == toc_text(files@, first as nat, extra as nat, sep@),
{
    let mut toc: Vec<u8> = Vec::new();
    push_str(&mut toc, TOC_HEADER);
    let ghost head = toc@;
    let mut current: usize = first;
    let mut i: usize = 0;
    while i < files.len()
        invariant
            extra <= 2,
            i <= files@.len(),
            line_after(files@, first as nat, extra as nat) <= usize::MAX,
            current == line_after(files@.subrange(0, i as int), first as nat, extra as nat),
            toc@ == head + toc_entries(files@.subrange(0, i as int), first as nat, extra as nat, sep@),
        decreases files@.len() - i,
    {
        let ghost prefix = files@.subrange(0, i as int);
        let ghost next = files@.subrange(0, i as int + 1);
        assert(next.drop_last() =~= prefix);
        assert(next.last() == files@[i as int]);
        let line_count_i = count_lines(files[i].1.as_slice());
        toc.push(47u8);
        toc.push(47u8);
        toc.push(32u8);
        toc.push(76u8);
        toc.push(110u8);
        push_decimal_left_aligned(&mut toc, current, 6);
        push_bytes(&mut toc, sep);
        push_str(&mut toc, files[i].0.as_str());
        toc.push(10u8);
        proof {
            lemma_line_after_mono(files@, first as nat, extra as nat, i + 1);
            assert(toc@ =~= head + toc_entries(next, first as nat, extra as nat, sep@));
        }
        current = current + line_count_i + extra;
        i = i + 1;
    }
    assert(files@.subrange(0, i as int) =~= files@);
    push_str(&mut toc, TOC_FOOTER);
    toc
}

/// Whether the line numbers of a table of contents for `files` fit in `usize`
/// when its first entry is at line `first`.
pub fn toc_fits(files: &[(String, Vec<u8>)], first: usize, extra: usize) -> (b: bool)
    requires
        extra <= 2,
    ensures
        b == (line_after(files@, first as nat, extra as nat) <= usize::MAX),
{
    let mut current: u128 = first as u128;
    let mut i: usize = 0;
    while i < files.len()
        invariant
            extra <= 2,
            i <= files@.len(),
            current == line_after(files@.subrange(0, i as int), first as nat, extra as nat),
            current <= usize::MAX,
        decreases files@.len() - i,
    {
        let ghost next = files@.subrange(0, i as int + 1);
        assert(next.drop_last() =~= files@.subrange(0, i as int));
        let n = count_lines(files[i].1.as_slice());
        current = current + n as u128 + extra as u128;
        if current > usize::MAX as u128 {
            proof {
                lemma_line_after_mono(files@, first as nat, extra as nat, i + 1);
            }
            return false;
        }
        i = i + 1;
    }
    assert(files@.subrange(0, i as int) =~= files@);
    true
}

/// Builder of the table of contents placed before the fused files.
pub struct TableOfContents;

impl TableOfContents {
    /// The table of contents for `files`, or `None` when there are none.
    /// Entries read `// Ln<line>: <path>`; the first file starts two lines
    /// after the `header_lines` lines that precede the table, and each file
    /// moves the count on by its line count plus one separator line.
    pub fn generate(files: &[(String, Vec<u8>)], header_lines: usize) -> (toc: Option<Vec<u8>>)
        requires
            header_lines + 2 <= usize::MAX,
            line_after(files@, header_lines as nat + 2, 1) <= usize::MAX,
        ensures
            files@.len() == 0 <==> toc is None,
            toc matches Some(t) ==> t@ == toc_text(files@, header_lines as nat + 2, 1, colon_sep()),
    {
        if files.len() == 0 {
            return None;
        }
        let sep: [u8; 2] = [58u8, 32u8];
        assert(sep@ =~= colon_sep());
        Some(build_toc(files, header_lines + 2, 1, &sep))
    }

    /// Number of lines of the header content, zero when there is none.
    pub fn count_header_lines(head_content: Option<&[u8]>) -> (n: usize)
        ensures
            n == match head_content {
                Some(bytes) => line_count(bytes@),
                None => 0,
            },
    {
        match head_content {
            Some(bytes) => count_lines(bytes),
            None => 0,
        }
    }
}

/// The table of contents written by the fusing command: entries read
/// `// Ln<line> : <path>`, the first file starts after `head_len` plus the two
/// header lines, and each file moves the count on by its line count plus two
/// (its separator line and the blank line after it). `None` when there are
/// no files.
pub fn generate_table_of_contents(file_contents: &[(String, Vec<u8>)], head_len: usize) -> (toc: Option<Vec<u8>>)
    requires
        head_len + TOC_HEADER_LINES <= usize::MAX,
        line_after(file_contents@, head_len as nat + 2, 2) <= usize::MAX,
    ensures
        file_contents@.len() == 0 <==> toc is None,
        toc matches Some(t) ==> t@ == toc_text(file_contents@, head_len as nat + 2, 2, spaced_colon_sep()),
{
    if file_contents.len() == 0 {
        return None;
    }
    let sep: [u8; 3] = [32u8, 58u8, 32u8];
    assert(sep@ =~= spaced_colon_sep());
    Some(build_toc(file_contents, head_len + TOC_HEADER_LINES, 2, &sep))
}

} // verus!

verus! {

/// Running line numbers: the first entry carries `first`, and each next
/// entry carries the number of the one before it plus the number of lines
/// that a line iterator yields on that file's content (a last line without
/// a line feed counts) plus `extra` separator lines. The table is its
/// header, one entry per file with these numbers, and its footer.
pub proof fn lemma_toc_running_numbers(files: Seq<(String, Vec<u8>)>, first: nat, extra: nat, sep: Seq<u8>)
    ensures
        entry_lines(files, first, extra).len() == files.len(),
        files.len() > 0 ==> entry_lines(files, first, extra)[0] == first,
        forall|i: int|
            0 <= i < files.len() - 1 ==> #[trigger] entry_lines(files, first, extra)[i + 1] == entry_lines(
                files,
                first,
                extra,
            )[i] + line_count(files[i].1@) + extra,
        toc_text(files, first, extra, sep) == vstd::utf8::encode_utf8(TOC_HEADER@) + entries_with(
            files,
            entry_lines(files, first, extra),
            sep,
        ) + vstd::utf8::encode_utf8(TOC_FOOTER@),
{
    lemma_entries_by_lines(files, first, extra, sep);
    if files.len() > 0 {
        assert(files.subrange(0, 0) =~= Seq::<(String, Vec<u8>)>::empty());
    }
    assert forall|i: int| 0 <= i < files.len() - 1 implies #[trigger] entry_lines(files, first, extra)[i + 1]
        == entry_lines(files, first, extra)[i] + line_count(files[i].1@) + extra by {
        let pre = files.subrange(0, i + 1);
        assert(pre.drop_last() =~= files.subrange(0, i));
        assert(pre.last() == files[i]);
    }
}

/// The entries of two runs of files are the entries of each, one after the
/// other; the entry of one file is `// Ln`, its number left-aligned in six
/// places, the separator, its path and a line feed.
pub proof fn lemma_entries_shape(
    f1: Seq<(String, Vec<u8>)>,
    l1: Seq<nat>,
    f2: Seq<(String, Vec<u8>)>,
    l2: Seq<nat>,
    sep: Seq<u8>,
)
    requires
        f1.len() == l1.len(),
        f2.len() == l2.len(),
    ensures
        entries_with(f1 + f2, l1 + l2, sep) == entries_with(f1, l1, sep) + entries_with(f2, l2, sep),
        f1.len() == 1 ==> entries_with(f1, l1, sep) == seq![47u8, 47u8, 32u8, 76u8, 110u8] + left_aligned(
            decimal(l1[0]),
            6,
        ) + sep + vstd::utf8::encode_utf8(f1[0].0@) + seq![10u8],
    decreases f2.len(),
{
    if f1.len() == 1 {
        assert(f1.drop_last() =~= Seq::<(String, Vec<u8>)>::empty());
        assert(entries_with(f1.drop_last(), l1.drop_last(), sep) =~= Seq::<u8>::empty());
        assert(entries_with(f1, l1, sep) =~= seq![47u8, 47u8, 32u8, 76u8, 110u8] + left_aligned(decimal(l1[0]), 6) + sep
            + vstd::utf8::encode_utf8(f1[0].0@) + seq![10u8]);
    }
    if f2.len() == 0 {
        assert(f1 + f2 =~= f1);
        assert(l1 + l2 =~= l1);
        assert(entries_with(f1, l1, sep) + entries_with(f2, l2, sep) =~= entries_with(f1, l1, sep));
    } else {
        lemma_entries_shape(f1, l1, f2.drop_last(), l2.drop_last(), sep);
        assert((f1 + f2).drop_last() =~= f1 + f2.drop_last());
        assert((l1 + l2).drop_last() =~= l1 + l2.drop_last());
        assert((f1 + f2).last() == f2.last());
        assert((l1 + l2).last() == l2.last());
    }
}

} // verus!
