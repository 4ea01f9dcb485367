//! Which walked files are kept: by name, extension, size and modification time.

use vstd::prelude::*;
use crate::args::{earlier, DateTime, FusionArgs};
use crate::paths::{extension, extension_of, file_name, file_name_of, texts};
use crate::text::range_equals;

verus! {

/// What the file system reports of a file.
pub struct FileMetadata {
    /// Size in bytes.
    pub len: u64,
    /// Last modification, `None` when it could not be read.
    pub modified: Option<DateTime>,
}

/// A walked entry: its path and, when it could be read, its metadata.
pub struct EntryInfo {
    pub path: String,
    pub metadata: Option<FileMetadata>,
}

/// `Cargo.lock`.
pub open spec fn lock_file_name() -> Seq<char> {
    seq!['C', 'a', 'r', 'g', 'o', '.', 'l', 'o', 'c', 'k']
}

/// Whether the extension of `path` is one of `extensions`.
pub open spec fn has_listed_extension(path: Seq<char>, extensions: Seq<Seq<char>>) -> bool {
    exists|i: int| 0 <= i < extensions.len() && extension_of(path) == Some(#[trigger] extensions[i])
}

/// Whether a file of these metadata passes the size and date limits.
pub open spec fn within_limits(
    meta: FileMetadata,
    smaller_than: Option<u64>,
    larger_than: Option<u64>,
    newer_than: Option<DateTime>,
    older_than: Option<DateTime>,
) -> bool {
    &&& (smaller_than matches Some(max) ==> meta.len <= max)
    &&& (larger_than matches Some(min) ==> meta.len >= min)
    &&& ((newer_than is Some || older_than is Some) ==> meta.modified is Some)
    &&& (newer_than matches Some(n) ==> !earlier(meta.modified->Some_0, n))
    &&& (older_than matches Some(o) ==> !earlier(o, meta.modified->Some_0))
}

/// Limits `(smaller2, larger2, newer2, older2)` are looser than
/// `(smaller1, larger1, newer1, older1)`: each is dropped or moved outwards.
pub open spec fn looser_limits(
    smaller1: Option<u64>,
    larger1: Option<u64>,
    newer1: Option<DateTime>,
    older1: Option<DateTime>,
    smaller2: Option<u64>,
    larger2: Option<u64>,
    newer2: Option<DateTime>,
    older2: Option<DateTime>,
) -> bool {
    &&& (smaller2 matches Some(s2) ==> (smaller1 matches Some(s1) && s1 <= s2))
    &&& (larger2 matches Some(l2) ==> (larger1 matches Some(l1) && l2 <= l1))
    &&& (newer2 matches Some(n2) ==> (newer1 matches Some(n1) && !earlier(n1, n2)))
    &&& (older2 matches Some(o2) ==> (older1 matches Some(o1) && !earlier(o2, o1)))
}

/// Loosening the limits keeps every file that the tighter limits keep.
pub proof fn lemma_looser_limits_keep(
    meta: FileMetadata,
    smaller1: Option<u64>,
    larger1: Option<u64>,
    newer1: Option<DateTime>,
    older1: Option<DateTime>,
    smaller2: Option<u64>,
    larger2: Option<u64>,
    newer2: Option<DateTime>,
    older2: Option<DateTime>,
)
    requires
        looser_limits(smaller1, larger1, newer1, older1, smaller2, larger2, newer2, older2),
        within_limits(meta, smaller1, larger1, newer1, older1),
    ensures
        within_limits(meta, smaller2, larger2, newer2, older2),
{
}

/// The file-selection settings taken from the options.
pub struct FileFilter<'a> {
    extension: &'a [String],
    smaller_than: Option<u64>,
    larger_than: Option<u64>,
    newer_than: Option<DateTime>,
    older_than: Option<DateTime>,
    include_lock: bool,
}

impl<'a> FileFilter<'a> {
    /// The extensions that are kept.
    pub closed spec fn extensions(&self) -> Seq<Seq<char>> {
        texts(self.extension@)
    }

    /// The size and date limits: `(smaller_than, larger_than, newer_than, older_than)`.
    pub closed spec fn limits(&self) -> (Option<u64>, Option<u64>, Option<DateTime>, Option<DateTime>) {
        (self.smaller_than, self.larger_than, self.newer_than, self.older_than)
    }

    /// A filter whose limits are looser than those of `tighter` keeps every
    /// entry whose size and date `tighter` lets through.
    pub proof fn lemma_looser_filter_passes(&self, tighter: &FileFilter, entry: EntryInfo)
        requires
            looser_limits(
                tighter.limits().0,
                tighter.limits().1,
                tighter.limits().2,
                tighter.limits().3,
                self.limits().0,
                self.limits().1,
                self.limits().2,
                self.limits().3,
            ),
            tighter.passes(entry),
        ensures
            self.passes(entry),
    {
        if self.checks_metadata() {
            let m = entry.metadata->Some_0;
            lemma_looser_limits_keep(
                m,
                tighter.smaller_than,
                tighter.larger_than,
                tighter.newer_than,
                tighter.older_than,
                self.smaller_than,
                self.larger_than,
                self.newer_than,
                self.older_than,
            );
        }
    }

    /// Whether any size or date limit is set, so that metadata must be read.
    pub closed spec fn checks_metadata(&self) -> bool {
        self.smaller_than is Some || self.larger_than is Some || self.newer_than is Some
            || self.older_than is Some
    }

    /// Whether an entry passes the size and date limits; without limits
    /// every entry does, with limits one whose metadata could not be read does not.
    pub closed spec fn passes(&self, entry: EntryInfo) -> bool {
        !self.checks_metadata() || (entry.metadata matches Some(m) && within_limits(
            m,
            self.smaller_than,
            self.larger_than,
            self.newer_than,
            self.older_than,
        ))
    }

    /// Whether an entry is kept: not `Cargo.lock` unless that is wanted, an
    /// extension from the list, and within the limits.
    pub closed spec fn keeps(&self, entry: EntryInfo) -> bool {
        &&& (self.include_lock || file_name_of(entry.path@) != Some(lock_file_name()))
        &&& has_listed_extension(entry.path@, self.extensions())
        &&& self.passes(entry)
    }

    /// The settings of `args`.
    pub fn from_args(args: &'a FusionArgs) -> (f: Self)
        ensures
            f.extensions() == texts(args.extension@),
            f.limits() == (args.smaller_than, args.larger_than, args.newer_than, args.older_than),
            f.checks_metadata() == (args.smaller_than is Some || args.larger_than is Some
                || args.newer_than is Some || args.older_than is Some),
            forall|e: EntryInfo| f.passes(e) == (!f.checks_metadata() || (e.metadata matches Some(m)
                && within_limits(m, args.smaller_than, args.larger_than, args.newer_than, args.older_than))),
            forall|e: EntryInfo| #[trigger] f.keeps(e) == ((args.include_lock || file_name_of(e.path@) != Some(lock_file_name()))
                && has_listed_extension(e.path@, texts(args.extension@)) && f.passes(e)),
    {
        FileFilter {
            extension: args.extension.as_slice(),
            smaller_than: args.smaller_than,
            larger_than: args.larger_than,
            newer_than: args.newer_than,
            older_than: args.older_than,
            include_lock: args.include_lock,
        }
    }

    /// Whether the metadata of entries must be read for this filter.
    pub fn needs_metadata(&self) -> (b: bool)
        ensures
            b == self.checks_metadata(),
    {
        self.smaller_than.is_some() || self.larger_than.is_some() || self.newer_than.is_some()
            || self.older_than.is_some()
    }

    /// The entry's path when the entry is kept, `None` otherwise.
    pub fn apply(&self, entry: &EntryInfo) -> (r: Option<String>)
        ensures
            r is Some <==> self.keeps(*entry),
            r matches Some(p) ==> p@ == entry.path@,
    {
        if !self.include_lock {
            let lock: [char; 10] = ['C', 'a', 'r', 'g', 'o', '.', 'l', 'o', 'c', 'k'];
            assert(lock@ =~= lock_file_name());
            if let Some(name) = file_name(entry.path.as_str()) {
                if range_equals(&name, 0, name.len(), &lock) {
                    assert(name@.subrange(0, name@.len() as int) =~= name@);
                    return None;
                }
                assert(name@.subrange(0, name@.len() as int) =~= name@);
            }
        }
        if !self.has_valid_extension(entry.path.as_str()) {
            return None;
        }
        if !self.passes_metadata_filter(entry) {
            return None;
        }
        Some(entry.path.clone())
    }

    fn has_valid_extension(&self, path: &str) -> (b: bool)
        ensures
            b == has_listed_extension(path@, self.extensions()),
    {
        let ext = match extension(path) {
            Some(e) => e,
            None => return false,
        };
        let mut i: usize = 0;
        while i < self.extension.len()
            invariant
                i <= self.extension@.len(),
                crate::paths::opt_chars(Some(ext)) == extension_of(path@),
                forall|j: int| 0 <= j < i ==> extension_of(path@) != Some(#[trigger] self.extensions()[j]),
            decreases self.extension@.len() - i,
        {
            let candidate = crate::text::chars_of(self.extension[i].as_str());
            if range_equals(&ext, 0, ext.len(), candidate.as_slice()) {
                assert(ext@.subrange(0, ext@.len() as int) =~= ext@);
                assert(self.extensions()[i as int] == self.extension@[i as int]@);
                return true;
            }
            assert(ext@.subrange(0, ext@.len() as int) =~= ext@);
            assert(self.extensions()[i as int] == self.extension@[i as int]@);
            i = i + 1;
        }
        false
    }

    /// Whether the entry passes the size and date limits.
    fn passes_metadata_filter(&self, entry: &EntryInfo) -> (b: bool)
        ensures
            b == self.passes(*entry),
    {
        if !self.needs_metadata() {
            return true;
        }
        let meta = match &entry.metadata {
            Some(m) => m,
            None => return false,
        };
        limits_hold(meta, self.smaller_than, self.larger_than, self.newer_than, self.older_than)
    }
}

/// Executable form of [`within_limits`].
fn limits_hold(
    meta: &FileMetadata,
    smaller_than: Option<u64>,
    larger_than: Option<u64>,
    newer_than: Option<DateTime>,
    older_than: Option<DateTime>,
) -> (b: bool)
    ensures
        b == within_limits(*meta, smaller_than, larger_than, newer_than, older_than),
{
    if let Some(max_size) = smaller_than {
        if meta.len > max_size {
            return false;
        }
    }
    if let Some(min_size) = larger_than {
        if meta.len < min_size {
            return false;
        }
    }
    if newer_than.is_some() || older_than.is_some() {
        let modified = match &meta.modified {
            Some(m) => m,
            None => return false,
        };
        if let Some(newer) = &newer_than {
            if modified.is_before(newer) {
                return false;
            }
        }
        if let Some(older) = &older_than {
            if older.is_before(modified) {
                return false;
            }
        }
    }
    true
}

/// The entry's metadata could be read and is within the limits.
pub open spec fn readable_within_limits(
    entry: EntryInfo,
    smaller_than: Option<u64>,
    larger_than: Option<u64>,
    newer_than: Option<DateTime>,
    older_than: Option<DateTime>,
) -> bool {
    entry.metadata matches Some(m) && within_limits(m, smaller_than, larger_than, newer_than, older_than)
}

/// Size and date check of the fusing command's filter, which needs readable
/// metadata even when no limit is set.
pub fn should_include_by_metadata(
    entry: &EntryInfo,
    smaller_than: Option<u64>,
    larger_than: Option<u64>,
    newer_than: Option<DateTime>,
    older_than: Option<DateTime>,
) -> (b: bool)
    ensures
        b == readable_within_limits(*entry, smaller_than, larger_than, newer_than, older_than),
{
    match &entry.metadata {
        Some(m) => limits_hold(m, smaller_than, larger_than, newer_than, older_than),
        None => false,
    }
}

/// Whether the fusing command's filter keeps an entry under the options `args`.
pub open spec fn args_keep(args: FusionArgs, entry: EntryInfo) -> bool {
    &&& (args.include_lock || file_name_of(entry.path@) != Some(lock_file_name()))
    &&& has_listed_extension(entry.path@, texts(args.extension@))
    &&& readable_within_limits(entry, args.smaller_than, args.larger_than, args.newer_than, args.older_than)
}

/// The fusing command's filter: the entry's path when it is not an unwanted
/// `Cargo.lock`, has a listed extension and passes
/// [`should_include_by_metadata`].
pub fn filter_path(
    extension_list: &[String],
    smaller_than: Option<u64>,
    larger_than: Option<u64>,
    newer_than: Option<DateTime>,
    older_than: Option<DateTime>,
    include_lock: bool,
    entry: &EntryInfo,
) -> (r: Option<String>)
    ensures
        r is Some <==> ((include_lock || file_name_of(entry.path@) != Some(lock_file_name()))
            && has_listed_extension(entry.path@, texts(extension_list@)) && readable_within_limits(
            *entry,
            smaller_than,
            larger_than,
            newer_than,
            older_than,
        )),
        r matches Some(p) ==> p@ == entry.path@,
{
    let f = FileFilter {
        extension: extension_list,
        smaller_than,
        larger_than,
        newer_than,
        older_than,
        include_lock,
    };
    let meta_ok = should_include_by_metadata(entry, smaller_than, larger_than, newer_than, older_than);
    if !f.include_lock_or_not_lock(entry.path.as_str()) {
        return None;
    }
    if !f.has_valid_extension(entry.path.as_str()) {
        return None;
    }
    if meta_ok {
        Some(entry.path.clone())
    } else {
        None
    }
}

impl<'a> FileFilter<'a> {
    fn include_lock_or_not_lock(&self, path: &str) -> (b: bool)
        ensures
            b == (self.include_lock || file_name_of(path@) != Some(lock_file_name())),
    {
        if self.include_lock {
            return true;
        }
        let lock: [char; 10] = ['C', 'a', 'r', 'g', 'o', '.', 'l', 'o', 'c', 'k'];
        assert(lock@ =~= lock_file_name());
        match file_name(path) {
            Some(name) => {
                assert(name@.subrange(0, name@.len() as int) =~= name@);
                !range_equals(&name, 0, name.len(), &lock)
            },
            None => true,
        }
    }
}

} // verus!
