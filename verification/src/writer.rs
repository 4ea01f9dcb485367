//! The fused output: header, metadata, table of contents, then every file
//! under a separator line.

use vstd::prelude::*;
use vstd::utf8::encode_utf8;
use crate::args::FusionArgs;
use crate::metadata::ProjectMetadata;
use crate::text::{push_bytes, push_str};

verus! {

/// One file's section: `<separator> <path>\n<content>\n`.
pub open spec fn file_section(separator: Seq<char>, file: (String, Vec<u8>)) -> Seq<u8> {
    encode_utf8(separator) + seq![32u8] + encode_utf8(file.0@) + seq![10u8] + file.1@ + seq![10u8]
}

/// The sections of all files, in order.
pub open spec fn files_block(files: Seq<(String, Vec<u8>)>, separator: Seq<char>) -> Seq<u8>
    decreases files.len(),
{
    if files.len() == 0 {
        Seq::empty()
    } else {
        files_block(files.drop_last(), separator) + file_section(separator, files.last())
    }
}

/// The bytes of an optional block, empty when absent.
pub open spec fn optional_bytes(b: Option<Seq<u8>>) -> Seq<u8> {
    match b {
        Some(s) => s,
        None => Seq::empty(),
    }
}

/// The bytes of the rendered metadata, empty when absent.
pub open spec fn metadata_bytes(m: Option<ProjectMetadata>) -> Seq<u8> {
    match m {
        Some(meta) => encode_utf8(meta.rendered()),
        None => Seq::empty(),
    }
}

/// The complete output.
pub open spec fn output_bytes(
    head: Option<Seq<u8>>,
    metadata: Option<ProjectMetadata>,
    toc: Option<Seq<u8>>,
    files: Seq<(String, Vec<u8>)>,
    separator: Seq<char>,
) -> Seq<u8> {
    optional_bytes(head) + metadata_bytes(metadata) + optional_bytes(toc) + files_block(files, separator)
}

/// The bytes of an optional byte vector.
pub open spec fn vec_bytes(v: Option<Vec<u8>>) -> Option<Seq<u8>> {
    match v {
        Some(b) => Some(b@),
        None => None,
    }
}

/// Appends the header content, if there is one.
pub fn write_header(writer: &mut Vec<u8>, head_content: Option<&[u8]>)
    ensures
        final(writer)@ == old(writer)@ + match head_content {
            Some(h) => h@,
            None => Seq::empty(),
        },
{
    match head_content {
        Some(h) => push_bytes(writer, h),
        None => {
            assert(old(writer)@ + Seq::<u8>::empty() =~= old(writer)@);
        },
    }
}

/// Appends the rendered metadata, if there is any.
pub fn write_metadata(writer: &mut Vec<u8>, metadata: Option<ProjectMetadata>)
    ensures
        final(writer)@ == old(writer)@ + metadata_bytes(metadata),
{
    match metadata {
        Some(meta) => {
            let text = meta.render();
            push_str(writer, text.as_str());
        },
        None => {
            assert(old(writer)@ + Seq::<u8>::empty() =~= old(writer)@);
        },
    }
}

/// Appends the table of contents, if there is one.
pub fn write_toc(writer: &mut Vec<u8>, toc: Option<Vec<u8>>)
    ensures
        final(writer)@ == old(writer)@ + optional_bytes(vec_bytes(toc)),
{
    match toc {
        Some(t) => push_bytes(writer, t.as_slice()),
        None => {
            assert(old(writer)@ + Seq::<u8>::empty() =~= old(writer)@);
        },
    }
}

/// Appends, for every file, `<separator> <path>\n`, its content and `\n`.
pub fn write_files(writer: &mut Vec<u8>, files: &[(String, Vec<u8>)], separator: &str)
    ensures
        final(writer)@ == old(writer)@ + files_block(files@, separator@),
{
    let mut i: usize = 0;
    proof {
        assert(files@.subrange(0, 0) =~= Seq::<(String, Vec<u8>)>::empty());
        assert(writer@ =~= old(writer)@ + files_block(files@.subrange(0, 0), separator@));
    }
    while i < files.len()
        invariant
            i <= files@.len(),
            writer@ == old(writer)@ + files_block(files@.subrange(0, i as int), separator@),
        decreases files@.len() - i,
    {
        let ghost next = files@.subrange(0, i as int + 1);
        assert(next.drop_last() =~= files@.subrange(0, i as int));
        assert(next.last() == files@[i as int]);
        let ghost before = writer@;
        push_str(writer, separator);
        writer.push(32u8);
        push_str(writer, files[i].0.as_str());
        writer.push(10u8);
        push_bytes(writer, files[i].1.as_slice());
        writer.push(10u8);
        assert(writer@ =~= before + file_section(separator@, files@[i as int]));
        i = i + 1;
    }
    assert(files@.subrange(0, i as int) =~= files@);
}

/// The whole output: the header content (read by the caller from the
/// file that `args.head` names), the metadata, the table of contents and the files, each
/// file under `<separator> <path>`.
pub fn write_output(
    args: &FusionArgs,
    files: Vec<(String, Vec<u8>)>,
    metadata: Option<ProjectMetadata>,
    toc: Option<Vec<u8>>,
    head_content: Option<Vec<u8>>,
) -> (out: Vec<u8>)
    ensures
        out@ == output_bytes(vec_bytes(head_content), metadata, vec_bytes(toc), files@, args.separator@),
{
    let mut writer: Vec<u8> = Vec::new();
    match &head_content {
        Some(h) => write_header(&mut writer, Some(h.as_slice())),
        None => write_header(&mut writer, None),
    }
    let ghost w1 = writer@;
    write_metadata(&mut writer, metadata);
    let ghost w2 = writer@;
    write_toc(&mut writer, toc);
    let ghost w3 = writer@;
    write_files(&mut writer, files.as_slice(), args.separator.as_str());
    assert(w1 =~= optional_bytes(vec_bytes(head_content)));
    writer
}

} // verus!

verus! {

/// Every file gets its section, whatever its content: one file alone gives
/// `<separator> <path>\n<content>\n`, and a run of files gives the sections
/// of its parts one after the other.
pub proof fn lemma_files_block_shape(f1: Seq<(String, Vec<u8>)>, f2: Seq<(String, Vec<u8>)>, separator: Seq<char>)
    ensures
        files_block(f1 + f2, separator) == files_block(f1, separator) + files_block(f2, separator),
        f1.len() == 1 ==> files_block(f1, separator) == encode_utf8(separator) + seq![32u8] + encode_utf8(f1[0].0@)
            + seq![10u8] + f1[0].1@ + seq![10u8],
        files_block(f1, separator).len() == sections_len(f1, separator),
    decreases f2.len(),
{
    lemma_files_block_len(f1, separator);
    if f1.len() == 1 {
        assert(f1.drop_last() =~= Seq::<(String, Vec<u8>)>::empty());
        assert(files_block(f1.drop_last(), separator) =~= Seq::<u8>::empty());
        assert(f1.last() == f1[0]);
        assert(files_block(f1, separator) =~= encode_utf8(separator) + seq![32u8] + encode_utf8(f1[0].0@) + seq![10u8]
            + f1[0].1@ + seq![10u8]);
    }
    if f2.len() == 0 {
        assert(f1 + f2 =~= f1);
        assert(files_block(f1, separator) + files_block(f2, separator) =~= files_block(f1, separator));
    } else {
        lemma_files_block_shape(f1, f2.drop_last(), separator);
        assert((f1 + f2).drop_last() =~= f1 + f2.drop_last());
        assert((f1 + f2).last() == f2.last());
    }
}

/// The length of the sections of `files`: per file, the separator, the
/// path and the content, plus a space and two line feeds.
pub open spec fn sections_len(files: Seq<(String, Vec<u8>)>, separator: Seq<char>) -> nat
    decreases files.len(),
{
    if files.len() == 0 {
        0
    } else {
        sections_len(files.drop_last(), separator) + encode_utf8(separator).len() + encode_utf8(files.last().0@).len()
            + files.last().1@.len() + 3
    }
}

proof fn lemma_files_block_len(files: Seq<(String, Vec<u8>)>, separator: Seq<char>)
    ensures
        files_block(files, separator).len() == sections_len(files, separator),
    decreases files.len(),
{
    if files.len() > 0 {
        lemma_files_block_len(files.drop_last(), separator);
    }
}

} // verus!
