//! The decisions of file collection: which search paths, which files, and
//! in what order.

use vstd::prelude::*;
use crate::args::FusionArgs;
use crate::filter::{args_keep, filter_path, EntryInfo, FileFilter};
use crate::paths::{dedup_by_path, dedup_paths, lemma_path_order, path_eq, path_le, path_lt, sort_by_path, sorted_by_path, texts};
use crate::workspace::WorkspaceResolution;
use vstd::string::StringExecFns;
use ignore::overrides::{Override, OverrideBuilder};

verus! {

/// Why collection stopped.
#[derive(Debug)]
pub enum CollectError {
    /// No directory was left to search.
    NoSearchPaths,
    /// The walk found no file that passed the filter.
    NoFilesFound,
    /// None of the files could be read.
    NoFilesRead,
}

/// The message of each failure of collection.
pub open spec fn collect_error_text(e: CollectError) -> Seq<char> {
    match e {
        CollectError::NoSearchPaths => "No search paths found"@,
        CollectError::NoFilesFound => "No files found to include"@,
        CollectError::NoFilesRead => "No files could be read successfully"@,
    }
}

impl CollectError {
    /// The message that explains the failure.
    pub fn message(&self) -> (s: String)
        ensures
            s@ == collect_error_text(*self),
    {
        match self {
            CollectError::NoSearchPaths => "No search paths found".to_owned(),
            CollectError::NoFilesFound => "No files found to include".to_owned(),
            CollectError::NoFilesRead => "No files could be read successfully".to_owned(),
        }
    }
}

/// Entries in non-decreasing path order.
pub open spec fn texts_sorted(s: Seq<Seq<char>>) -> bool {
    forall|i: int, j: int| 0 <= i < j < s.len() ==> path_le(#[trigger] s[i], #[trigger] s[j])
}

/// Entries in strictly increasing path order: no path twice.
pub open spec fn texts_strictly_sorted(s: Seq<Seq<char>>) -> bool {
    forall|i: int, j: int| 0 <= i < j < s.len() ==> path_lt(#[trigger] s[i], #[trigger] s[j])
}

/// Some entry of `r` names the same path as `x`.
pub open spec fn has_path(r: Seq<Seq<char>>, x: Seq<char>) -> bool {
    exists|j: int| 0 <= j < r.len() && path_eq(#[trigger] r[j], x)
}

/// Every entry of `s` names the same path as some entry of `r`.
pub open spec fn covers(r: Seq<Seq<char>>, s: Seq<Seq<char>>) -> bool {
    forall|i: int| 0 <= i < s.len() ==> has_path(r, #[trigger] s[i])
}

/// Every entry of `r` is an entry of `s`.
pub open spec fn drawn_from(r: Seq<Seq<char>>, s: Seq<Seq<char>>) -> bool {
    forall|j: int| 0 <= j < r.len() ==> s.contains(#[trigger] r[j])
}

/// `x` is an entry of `s` and no earlier entry names the same path.
pub open spec fn first_in_class(s: Seq<Seq<char>>, x: Seq<char>) -> bool {
    exists|i: int| 0 <= i < s.len() && s[i] == x && forall|k: int| 0 <= k < i ==> !path_eq(#[trigger] s[k], x)
}

/// Every entry of `r` is the first entry of `s` that names its path.
pub open spec fn firsts_only(r: Seq<Seq<char>>, s: Seq<Seq<char>>) -> bool {
    forall|j: int| 0 <= j < r.len() ==> first_in_class(s, #[trigger] r[j])
}

proof fn lemma_dedup_drawn(s: Seq<Seq<char>>)
    ensures
        drawn_from(dedup_paths(s), s),
    decreases s.len(),
{
    let d = dedup_paths(s);
    if s.len() <= 1 {
        assert forall|j: int| 0 <= j < d.len() implies s.contains(#[trigger] d[j]) by {
            assert(s[j] == d[j]);
        }
    } else {
        let t = s.drop_last();
        lemma_dedup_drawn(t);
        let dt = dedup_paths(t);
        assert forall|j: int| 0 <= j < d.len() implies s.contains(#[trigger] d[j]) by {
            if j < dt.len() {
                assert(d[j] == dt[j]);
                assert(t.contains(dt[j]));
                let k = choose|k: int| 0 <= k < t.len() && t[k] == dt[j];
                assert(s[k] == d[j]);
            } else {
                assert(d[j] == s[s.len() - 1]);
            }
        }
    }
}

proof fn lemma_dedup_covers(s: Seq<Seq<char>>)
    ensures
        covers(dedup_paths(s), s),
        s.len() > 0 ==> dedup_paths(s).len() > 0 && path_eq(dedup_paths(s).last(), s.last()),
    decreases s.len(),
{
    let d = dedup_paths(s);
    if s.len() <= 1 {
        assert(d == s);
        assert forall|i: int| 0 <= i < s.len() implies has_path(d, #[trigger] s[i]) by {
            assert(d[i] == s[i]);
            assert(path_eq(d[i], s[i]));
        }
    } else {
        let t = s.drop_last();
        let n = s.len();
        lemma_dedup_covers(t);
        let dt = dedup_paths(t);
        assert(t.last() == s[n - 2]);
        if path_eq(s[n - 2], s.last()) {
            assert(d == dt);
            assert(path_eq(d.last(), s.last()));
        } else {
            assert(d == dt.push(s.last()));
            assert(d.last() == s.last());
        }
        assert forall|i: int| 0 <= i < s.len() implies has_path(d, #[trigger] s[i]) by {
            if i < n - 1 {
                assert(t[i] == s[i]);
                assert(has_path(dt, t[i]));
                let j = choose|j: int| 0 <= j < dt.len() && path_eq(#[trigger] dt[j], t[i]);
                assert(d[j] == dt[j]);
                assert(path_eq(d[j], s[i]));
            } else {
                assert(path_eq(d[d.len() - 1], s[i]));
            }
        }
    }
}

proof fn lemma_dedup_strict(s: Seq<Seq<char>>)
    requires
        texts_sorted(s),
    ensures
        texts_strictly_sorted(dedup_paths(s)),
    decreases s.len(),
{
    let d = dedup_paths(s);
    if s.len() > 1 {
        let t = s.drop_last();
        let n = s.len();
        assert(texts_sorted(t)) by {
            assert forall|i: int, j: int| 0 <= i < j < t.len() implies path_le(#[trigger] t[i], #[trigger] t[j]) by {
                assert(t[i] == s[i] && t[j] == s[j]);
            }
        }
        lemma_dedup_strict(t);
        let dt = dedup_paths(t);
        if !path_eq(s[n - 2], s.last()) {
            lemma_dedup_drawn(t);
            assert(path_le(s[n - 2], s[n - 1]));
            lemma_path_order(s[n - 2], s[n - 1], s[n - 2]);
            assert forall|a: int, b: int| 0 <= a < b < d.len() implies path_lt(#[trigger] d[a], #[trigger] d[b]) by {
                if b < d.len() - 1 {
                    assert(d[a] == dt[a] && d[b] == dt[b]);
                } else {
                    assert(d[a] == dt[a]);
                    assert(t.contains(dt[a]));
                    let k = choose|k: int| 0 <= k < t.len() && t[k] == dt[a];
                    assert(s[k] == dt[a]);
                    if k < n - 2 {
                        assert(path_le(s[k], s[n - 2]));
                        lemma_path_order(s[k], s[n - 2], s[n - 1]);
                        lemma_path_order(s[n - 2], s[k], s[n - 1]);
                    }
                }
            }
        }
    }
}

/// The paths of a sequence of `(path, _)` pairs.
pub open spec fn first_texts<T>(s: Seq<(String, T)>) -> Seq<Seq<char>> {
    s.map_values(|x: (String, T)| x.0@)
}

/// Whether some entry of `reps` names the same path as `p`.
fn path_among(reps: &Vec<(String, ())>, p: &str) -> (b: bool)
    ensures
        b == has_path(first_texts(reps@), p@),
{
    let mut q: usize = 0;
    while q < reps.len()
        invariant
            q <= reps@.len(),
            forall|b: int| 0 <= b < q ==> !path_eq(#[trigger] first_texts(reps@)[b], p@),
        decreases reps@.len() - q,
    {
        assert(first_texts(reps@)[q as int] == reps@[q as int].0@);
        if crate::paths::paths_equal(reps[q].0.as_str(), p) {
            return true;
        }
        q = q + 1;
    }
    false
}

/// How the directory walk is set up.
pub struct WalkSettings {
    /// How deep the walk goes, unlimited when `None`.
    pub max_depth: Option<usize>,
    /// Whether ignore files, hidden files and the like are respected.
    pub standard_filters: bool,
    /// Whether symbolic links are followed.
    pub follow_links: bool,
    /// Whether the walk stays on the file system it starts on.
    pub same_file_system: bool,
}

/// Unit struct grouping the collection steps.
pub struct FileCollector;

impl FileCollector {
    /// The search paths, sorted by path with repeated paths left out: of
    /// the entries that name the same path, the first one given is kept.
    /// [`CollectError::NoSearchPaths`] when there are none.
    pub fn deduplicate_paths(paths: Vec<String>) -> (r: Result<Vec<String>, CollectError>)
        ensures
            r is Ok <==> paths@.len() > 0,
            r matches Err(e) ==> e is NoSearchPaths,
            r matches Ok(v) ==> texts_strictly_sorted(texts(v@)) && drawn_from(texts(v@), texts(paths@))
                && covers(texts(v@), texts(paths@)) && firsts_only(texts(v@), texts(paths@)),
    {
        let ghost input = texts(paths@);
        let mut reps: Vec<(String, ())> = Vec::new();
        let ghost mut idx: Seq<int> = Seq::empty();
        let mut i: usize = 0;
        while i < paths.len()
            invariant
                input == texts(paths@),
                i <= paths@.len(),
                idx.len() == reps@.len(),
                forall|a: int| #![trigger reps@[a]] #![trigger idx[a]] 0 <= a < reps@.len() ==> 0 <= idx[a] < i && reps@[a].0@ == input[idx[a]]
                    && first_in_class(input, reps@[a].0@),
                forall|k: int| 0 <= k < i ==> has_path(first_texts(reps@), #[trigger] input[k]),
            decreases paths@.len() - i,
        {
            assert(input[i as int] == paths@[i as int]@);
            let seen = path_among(&reps, paths[i].as_str());
            if !seen {
                let ghost r0 = reps@;
                proof {
                    assert forall|k: int| 0 <= k < i implies !path_eq(#[trigger] input[k], input[i as int]) by {
                        assert(has_path(first_texts(r0), input[k]));
                        let b = choose|b: int| 0 <= b < first_texts(r0).len() && path_eq(#[trigger] first_texts(r0)[b], input[k]);
                        assert(!path_eq(first_texts(r0)[b], input[i as int]));
                    }
                    assert(first_in_class(input, input[i as int]));
                }
                let ghost idx0 = idx;
                reps.push((paths[i].clone(), ()));
                proof {
                    idx = idx.push(i as int);
                    assert(first_texts(reps@) =~= first_texts(r0).push(input[i as int]));
                    assert forall|k: int| 0 <= k <= i implies has_path(first_texts(reps@), #[trigger] input[k]) by {
                        if k < i {
                            let b = choose|b: int| 0 <= b < first_texts(r0).len() && path_eq(#[trigger] first_texts(r0)[b], input[k]);
                            assert(first_texts(reps@)[b] == first_texts(r0)[b]);
                        } else {
                            assert(first_texts(reps@)[r0.len() as int] == input[k]);
                        }
                    }
                    assert forall|a: int| #![trigger reps@[a]] 0 <= a < reps@.len() implies 0 <= idx[a] < i + 1
                        && reps@[a].0@ == input[idx[a]] && first_in_class(input, reps@[a].0@) by {
                        if a < r0.len() {
                            assert(reps@[a] == r0[a]);
                            assert(idx[a] == idx0[a]);
                        } else {
                            assert(idx[a] == i);
                        }
                    }
                }
            }
            i = i + 1;
        }
        proof {
            if input.len() == 0 && reps@.len() > 0 {
                assert(reps@[0].0@ == input[idx[0]]);
            }
        }
        let ghost before_sort = reps@;
        let sorted = sort_by_path(reps);
        let mut strs: Vec<String> = Vec::new();
        let mut k: usize = 0;
        while k < sorted.len()
            invariant
                k <= sorted@.len(),
                texts(strs@) == first_texts(sorted@).subrange(0, k as int),
            decreases sorted@.len() - k,
        {
            let ghost s0 = strs@;
            strs.push(sorted[k].0.clone());
            assert(texts(strs@) =~= texts(s0).push(sorted@[k as int].0@));
            assert(first_texts(sorted@).subrange(0, k + 1) =~= first_texts(sorted@).subrange(0, k as int).push(sorted@[k as int].0@));
            k = k + 1;
        }
        let ghost st = first_texts(sorted@);
        assert(st.subrange(0, k as int) =~= st);
        proof {
            assert(texts_sorted(st)) by {
                assert forall|a: int, b: int| 0 <= a < b < st.len() implies path_le(#[trigger] st[a], #[trigger] st[b]) by {
                    assert(st[a] == sorted@[a].0@ && st[b] == sorted@[b].0@);
                }
            }
            lemma_dedup_strict(st);
            lemma_dedup_drawn(st);
            lemma_dedup_covers(st);
        }
        // The entries are distinct paths already; this pass leaves them as
        // they are and hands over the strict order.
        let d = dedup_by_path(strs);
        proof {
            let dv = texts(d@);
            assert(dv == dedup_paths(st));
            assert forall|j: int| 0 <= j < dv.len() implies input.contains(#[trigger] dv[j]) && first_in_class(input, dv[j]) by {
                assert(st.contains(dv[j]));
                let q = choose|q: int| 0 <= q < st.len() && st[q] == dv[j];
                assert(sorted@.contains(sorted@[q]));
                assert(before_sort.contains(sorted@[q]));
                let w = choose|w: int| 0 <= w < before_sort.len() && before_sort[w] == sorted@[q];
                assert(before_sort[w].0@ == dv[j]);
                assert(input[idx[w]] == dv[j]);
            }
            assert(firsts_only(dv, input));
            assert forall|i: int| 0 <= i < input.len() implies has_path(dv, #[trigger] input[i]) by {
                assert(has_path(first_texts(before_sort), input[i]));
                let a = choose|a: int| 0 <= a < first_texts(before_sort).len() && path_eq(#[trigger] first_texts(before_sort)[a], input[i]);
                assert(before_sort.contains(before_sort[a]));
                assert(sorted@.contains(before_sort[a]));
                let q = choose|q: int| 0 <= q < sorted@.len() && sorted@[q] == before_sort[a];
                assert(st[q] == first_texts(before_sort)[a]);
                assert(has_path(dv, st[q]));
                let j = choose|j: int| 0 <= j < dv.len() && path_eq(#[trigger] dv[j], st[q]);
                assert(path_eq(dv[j], input[i]));
            }
            if input.len() > 0 {
                assert(has_path(first_texts(before_sort), input[0]));
                assert(before_sort.len() > 0);
                assert(before_sort.contains(before_sort[0]));
                assert(sorted@.contains(before_sort[0]));
                assert(st.len() > 0);
            } else {
                assert(before_sort.len() == 0);
                assert(sorted@.len() == 0) by {
                    if sorted@.len() > 0 {
                        assert(sorted@.contains(sorted@[0]));
                        assert(before_sort.contains(sorted@[0]));
                    }
                }
            }
        }
        if d.len() == 0 {
            return Err(CollectError::NoSearchPaths);
        }
        Ok(d)
    }

    /// The walk settings of the options: the `--depth` limit, the standard
    /// filters when gitignored files are skipped, no following of links, and
    /// one file system.
    pub fn walk_settings(args: &FusionArgs) -> (w: WalkSettings)
        ensures
            w.max_depth == args.depth,
            w.standard_filters == args.skip_gitignore,
            !w.follow_links,
            w.same_file_system,
    {
        WalkSettings {
            max_depth: args.depth,
            standard_filters: args.skip_gitignore,
            follow_links: false,
            same_file_system: true,
        }
    }

    /// The last steps of collection: the kept paths with each directory
    /// (`is_dir[i]` answers for `paths[i]`) replaced by `walked`, the files
    /// found in the directories, then at most `max_files` of them; with the
    /// number of files before the limit.
    pub fn reduce_and_limit(paths: Vec<String>, is_dir: &Vec<bool>, walked: Vec<String>, max_files: Option<usize>) -> (r: (Vec<String>, usize))
        requires
            is_dir@.len() == paths@.len(),
        ensures
            ({
                let all = existing(texts(paths@), is_dir@.map_values(|d: bool| !d)) + texts(walked@);
                &&& r.1 == all.len()
                &&& texts(r.0@) == match max_files {
                    Some(max) if all.len() > max => all.take(max as int),
                    _ => all,
                }
            }),
    {
        let files = Self::reduce_dir_list(paths, is_dir, walked);
        let found = files.len();
        (Self::apply_file_limit(files, max_files), found)
    }

    /// The `--include` paths that exist (`exists[i]` answers for `args.include_paths[i]`),
    /// in their given order.
    pub fn get_valid_include_paths(args: &FusionArgs, exists: &Vec<bool>) -> (r: Vec<String>)
        requires
            exists@.len() == args.include_paths@.len(),
        ensures
            texts(r@) == existing(texts(args.include_paths@), exists@),
    {
        let mut r: Vec<String> = Vec::new();
        let mut i: usize = 0;
        let ghost all = texts(args.include_paths@);
        while i < args.include_paths.len()
            invariant
                all == texts(args.include_paths@),
                exists@.len() == all.len(),
                i <= all.len(),
                texts(r@) == existing(all.subrange(0, i as int), exists@.subrange(0, i as int)),
            decreases all.len() - i,
        {
            assert(all.subrange(0, i + 1).drop_last() =~= all.subrange(0, i as int));
            assert(exists@.subrange(0, i + 1).drop_last() =~= exists@.subrange(0, i as int));
            if exists[i] {
                let ghost r0 = r@;
                r.push(args.include_paths[i].clone());
                assert(texts(r@) =~= texts(r0).push(all[i as int]));
            }
            i = i + 1;
        }
        assert(all.subrange(0, i as int) =~= all);
        assert(exists@.subrange(0, i as int) =~= exists@);
        r
    }

    /// The search paths: the existing `--include` paths, the search root and,
    /// when dependencies are wanted, the dependency directories, sorted with
    /// repeated paths left out (the first one given of each is kept).
    pub fn build_search_paths(
        args: &FusionArgs,
        resolution: &WorkspaceResolution,
        include_exists: &Vec<bool>,
        dependencies: Vec<String>,
    ) -> (r: Result<Vec<String>, CollectError>)
        requires
            include_exists@.len() == args.include_paths@.len(),
        ensures
            r matches Ok(v) && {
                let all = existing(texts(args.include_paths@), include_exists@).push(resolution.search_root@)
                    + if args.dependencies { texts(dependencies@) } else { Seq::empty() };
                texts_strictly_sorted(texts(v@)) && drawn_from(texts(v@), all) && covers(texts(v@), all)
                    && firsts_only(texts(v@), all)
            },
    {
        let mut paths = Self::get_valid_include_paths(args, include_exists);
        let ghost valid = texts(paths@);
        paths.push(resolution.search_root.clone());
        let ghost base = texts(paths@);
        assert(base =~= valid.push(resolution.search_root@));
        if args.dependencies {
            let mut i: usize = 0;
            while i < dependencies.len()
                invariant
                    i <= dependencies@.len(),
                    texts(paths@) == base + texts(dependencies@).subrange(0, i as int),
                decreases dependencies@.len() - i,
            {
                let ghost p0 = paths@;
                paths.push(dependencies[i].clone());
                assert(texts(paths@) =~= texts(p0).push(dependencies@[i as int]@));
                assert(texts(dependencies@).subrange(0, i + 1) =~= texts(dependencies@).subrange(0, i as int).push(dependencies@[i as int]@));
                i = i + 1;
            }
            assert(texts(dependencies@).subrange(0, i as int) =~= texts(dependencies@));
        } else {
            assert(base + Seq::<Seq<char>>::empty() =~= base);
        }
        assert(texts(paths@) =~= existing(texts(args.include_paths@), include_exists@).push(resolution.search_root@)
            + if args.dependencies { texts(dependencies@) } else { Seq::empty() });
        assert(texts(paths@).len() > 0);
        Self::deduplicate_paths(paths)
    }

    /// At most `max_files` of the files, the first ones.
    pub fn apply_file_limit(files: Vec<String>, max_files: Option<usize>) -> (r: Vec<String>)
        ensures
            texts(r@) == match max_files {
                Some(max) if files@.len() > max => texts(files@).take(max as int),
                _ => texts(files@),
            },
    {
        let mut files = files;
        let ghost orig = files@;
        if let Some(max) = max_files {
            if files.len() > max {
                files.truncate(max);
                assert(texts(files@) =~= texts(orig).take(max as int));
            }
        }
        files
    }

    /// The paths of the entries that `filter` keeps, in order;
    /// [`CollectError::NoFilesFound`] when it keeps none.
    pub fn select_files(entries: &Vec<EntryInfo>, filter: &FileFilter) -> (r: Result<Vec<String>, CollectError>)
        ensures
            kept_paths(entries@, *filter).len() == 0 <==> r is Err,
            r matches Err(e) ==> e is NoFilesFound,
            r matches Ok(v) ==> texts(v@) == kept_paths(entries@, *filter),
    {
        let mut files: Vec<String> = Vec::new();
        let mut i: usize = 0;
        while i < entries.len()
            invariant
                i <= entries@.len(),
                texts(files@) == kept_paths(entries@.subrange(0, i as int), *filter),
            decreases entries@.len() - i,
        {
            assert(entries@.subrange(0, i + 1).drop_last() =~= entries@.subrange(0, i as int));
            match filter.apply(&entries[i]) {
                Some(p) => {
                    let ghost f0 = files@;
                    files.push(p);
                    assert(texts(files@) =~= texts(f0).push(entries@[i as int].path@));
                },
                None => {},
            }
            i = i + 1;
        }
        assert(entries@.subrange(0, i as int) =~= entries@);
        if files.len() == 0 {
            return Err(CollectError::NoFilesFound);
        }
        Ok(files)
    }

    /// The walked entries that the options keep, by name, extension, size
    /// and date, in order; [`CollectError::NoFilesFound`] when none is kept.
    pub fn filter_entries(entries: &Vec<EntryInfo>, args: &FusionArgs) -> (r: Result<Vec<String>, CollectError>)
        ensures
            paths_kept_by_args(entries@, *args).len() == 0 <==> r is Err,
            r matches Err(e) ==> e is NoFilesFound,
            r matches Ok(v) ==> texts(v@) == paths_kept_by_args(entries@, *args),
    {
        let mut files: Vec<String> = Vec::new();
        let mut i: usize = 0;
        while i < entries.len()
            invariant
                i <= entries@.len(),
                texts(files@) == paths_kept_by_args(entries@.subrange(0, i as int), *args),
            decreases entries@.len() - i,
        {
            assert(entries@.subrange(0, i + 1).drop_last() =~= entries@.subrange(0, i as int));
            let kept = filter_path(
                args.extension.as_slice(),
                args.smaller_than,
                args.larger_than,
                args.newer_than,
                args.older_than,
                args.include_lock,
                &entries[i],
            );
            match kept {
                Some(p) => {
                    let ghost f0 = files@;
                    files.push(p);
                    assert(texts(files@) =~= texts(f0).push(entries@[i as int].path@));
                },
                None => {},
            }
            i = i + 1;
        }
        assert(entries@.subrange(0, i as int) =~= entries@);
        if files.len() == 0 {
            return Err(CollectError::NoFilesFound);
        }
        Ok(files)
    }

    /// The paths that are not directories (`is_dir[i]` answers for
    /// `paths[i]`), in order, followed by `walked`, the files found by walking
    /// the directories.
    pub fn reduce_dir_list(paths: Vec<String>, is_dir: &Vec<bool>, walked: Vec<String>) -> (r: Vec<String>)
        requires
            is_dir@.len() == paths@.len(),
        ensures
            texts(r@) == existing(texts(paths@), is_dir@.map_values(|d: bool| !d)) + texts(walked@),
    {
        let not_dir: Vec<bool> = {
            let mut v: Vec<bool> = Vec::new();
            let mut i: usize = 0;
            while i < is_dir.len()
                invariant
                    i <= is_dir@.len(),
                    v@ == is_dir@.subrange(0, i as int).map_values(|d: bool| !d),
                decreases is_dir@.len() - i,
            {
                v.push(!is_dir[i]);
                assert(is_dir@.subrange(0, i + 1).map_values(|d: bool| !d) =~= is_dir@.subrange(0, i as int).map_values(|d: bool| !d).push(!is_dir@[i as int]));
                i = i + 1;
            }
            assert(is_dir@.subrange(0, i as int) =~= is_dir@);
            v
        };
        let mut files: Vec<String> = Vec::new();
        let mut i: usize = 0;
        let ghost all = texts(paths@);
        while i < paths.len()
            invariant
                all == texts(paths@),
                not_dir@.len() == all.len(),
                i <= all.len(),
                texts(files@) == existing(all.subrange(0, i as int), not_dir@.subrange(0, i as int)),
            decreases all.len() - i,
        {
            assert(all.subrange(0, i + 1).drop_last() =~= all.subrange(0, i as int));
            assert(not_dir@.subrange(0, i + 1).drop_last() =~= not_dir@.subrange(0, i as int));
            if not_dir[i] {
                let ghost f0 = files@;
                files.push(paths[i].clone());
                assert(texts(files@) =~= texts(f0).push(all[i as int]));
            }
            i = i + 1;
        }
        assert(all.subrange(0, i as int) =~= all);
        assert(not_dir@.subrange(0, i as int) =~= not_dir@);
        let ghost kept = files@;
        let mut k: usize = 0;
        while k < walked.len()
            invariant
                k <= walked@.len(),
                texts(files@) == texts(kept) + texts(walked@).subrange(0, k as int),
            decreases walked@.len() - k,
        {
            let ghost f0 = files@;
            files.push(walked[k].clone());
            assert(texts(files@) =~= texts(f0).push(walked@[k as int]@));
            assert(texts(walked@).subrange(0, k + 1) =~= texts(walked@).subrange(0, k as int).push(walked@[k as int]@));
            k = k + 1;
        }
        assert(texts(walked@).subrange(0, k as int) =~= texts(walked@));
        files
    }

    /// The kept entries' paths, at most `max_files` of them;
    /// [`CollectError::NoFilesFound`] when the filter keeps none.
    pub fn find_files(entries: &Vec<EntryInfo>, filter: &FileFilter, max_files: Option<usize>) -> (r: Result<Vec<String>, CollectError>)
        ensures
            kept_paths(entries@, *filter).len() == 0 <==> r is Err,
            r matches Err(e) ==> e is NoFilesFound,
            r matches Ok(v) ==> texts(v@) == match max_files {
                Some(max) if kept_paths(entries@, *filter).len() > max => kept_paths(entries@, *filter).take(max as int),
                _ => kept_paths(entries@, *filter),
            },
    {
        let mut files: Vec<String> = Vec::new();
        let mut i: usize = 0;
        while i < entries.len()
            invariant
                i <= entries@.len(),
                texts(files@) == kept_paths(entries@.subrange(0, i as int), *filter),
            decreases entries@.len() - i,
        {
            assert(entries@.subrange(0, i + 1).drop_last() =~= entries@.subrange(0, i as int));
            match filter.apply(&entries[i]) {
                Some(p) => {
                    let ghost f0 = files@;
                    files.push(p);
                    assert(texts(files@) =~= texts(f0).push(entries@[i as int].path@));
                },
                None => {},
            }
            i = i + 1;
        }
        assert(entries@.subrange(0, i as int) =~= entries@);
        if files.len() == 0 {
            return Err(CollectError::NoFilesFound);
        }
        Ok(Self::apply_file_limit(files, max_files))
    }

    /// The files that could be read (`None` content: reading failed), sorted
    /// by path; [`CollectError::NoFilesRead`] when none could be read.
    pub fn read_files(reads: Vec<(String, Option<Vec<u8>>)>) -> (r: Result<Vec<(String, Vec<u8>)>, CollectError>)
        ensures
            successful_reads(reads@).len() == 0 <==> r is Err,
            r matches Err(e) ==> e is NoFilesRead,
            r matches Ok(v) ==> v@.to_multiset() == successful_reads(reads@).to_multiset() && sorted_by_path(v@),
    {
        let mut files: Vec<(String, Vec<u8>)> = Vec::new();
        let mut rest = reads;
        let ghost all = rest@;
        let ghost mut i: int = 0;
        while rest.len() > 0
            invariant
                0 <= i <= all.len(),
                rest@.len() + i == all.len(),
                rest@ == all.subrange(i, all.len() as int),
                files@ == successful_reads(all.subrange(0, i)),
            decreases rest@.len(),
        {
            let item = rest.remove(0);
            assert(item == all[i]);
            assert(all.subrange(0, i + 1).drop_last() =~= all.subrange(0, i));
            assert(rest@ =~= all.subrange(i + 1, all.len() as int));
            let (path, content) = item;
            match content {
                Some(c) => {
                    files.push((path, c));
                },
                None => {},
            }
            proof {
                i = i + 1;
            }
        }
        assert(all.subrange(0, i) =~= all);
        if files.len() == 0 {
            return Err(CollectError::NoFilesRead);
        }
        Ok(sort_by_path(files))
    }

    /// The override globs that leave out the `--exclude` patterns: each
    /// pattern behind a `!`, in order.
    pub fn exclude_globs(args: &FusionArgs) -> (v: Vec<String>)
        ensures
            v@.len() == args.exclude@.len(),
            forall|i: int| 0 <= i < v@.len() ==> #[trigger] v@[i]@ == "!"@ + args.exclude@[i]@,
            texts(v@) == exclude_glob_texts(args.exclude@),
    {
        let mut v: Vec<String> = Vec::new();
        let mut i: usize = 0;
        while i < args.exclude.len()
            invariant
                i <= args.exclude@.len(),
                v@.len() == i,
                forall|j: int| 0 <= j < i ==> #[trigger] v@[j]@ == "!"@ + args.exclude@[j]@,
            decreases args.exclude@.len() - i,
        {
            let mut s = String::new();
            s.append("!");
            s.append(args.exclude[i].as_str());
            assert(s@ =~= "!"@ + args.exclude@[i as int]@);
            v.push(s);
            i = i + 1;
        }
        assert(texts(v@) =~= exclude_glob_texts(args.exclude@));
        v
    }

    /// The overrides that make the walk leave out the `--exclude` patterns:
    /// `None` when there are none. The globs of [`FileCollector::exclude_globs`]
    /// are added, in order, to a builder rooted at `.`; a glob that does not
    /// parse is skipped. The overrides hold exactly the lines that were
    /// accepted and match relative to `.`; `None` also comes back when
    /// compiling them fails, which cannot happen when no line was accepted.
    pub fn build_exclude_overrides(args: &FusionArgs) -> (r: Option<Override>)
        ensures
            r is Some <==> (args.exclude@.len() > 0 && override_lines_compile(
                accepted_lines(exclude_glob_texts(args.exclude@)),
            )),
            args.exclude@.len() > 0 && accepted_lines(exclude_glob_texts(args.exclude@)).len() == 0 ==> r is Some,
            r matches Some(o) ==> override_globs(o) == accepted_lines(exclude_glob_texts(args.exclude@)),
            r matches Some(o) ==> override_root(o) == if accepted_lines(exclude_glob_texts(args.exclude@)).len() == 0 {
                Seq::<char>::empty()
            } else {
                "."@
            },
    {
        if args.exclude.len() == 0 {
            return None;
        }
        let globs = Self::exclude_globs(args);
        let ghost all = texts(globs@);
        let root: &str = ".";
        proof {
            reveal_strlit(".");
        }
        let mut builder = override_builder(root);
        assert(kept_root(root@) == root@);
        let mut i: usize = 0;
        assert(all.subrange(0, 0) =~= Seq::<Seq<char>>::empty());
        while i < globs.len()
            invariant
                all == texts(globs@),
                i <= globs@.len(),
                builder_globs(builder) == accepted_lines(all.subrange(0, i as int)),
                builder_root(builder) == "."@,
            decreases globs@.len() - i,
        {
            assert(all.subrange(0, i + 1).drop_last() =~= all.subrange(0, i as int));
            assert(all[i as int] == globs@[i as int]@);
            let _ = add_override_glob(&mut builder, globs[i].as_str());
            i = i + 1;
        }
        assert(all.subrange(0, i as int) =~= all);
        build_override(&builder)
    }

    /// The `--exclude` patterns whose glob does not parse, in order: those
    /// that [`FileCollector::build_exclude_overrides`] skips.
    pub fn refused_excludes(args: &FusionArgs) -> (v: Vec<String>)
        ensures
            texts(v@) == refused_patterns(args.exclude@),
    {
        let mut v: Vec<String> = Vec::new();
        let mut i: usize = 0;
        while i < args.exclude.len()
            invariant
                i <= args.exclude@.len(),
                texts(v@) == refused_patterns(args.exclude@.subrange(0, i as int)),
            decreases args.exclude@.len() - i,
        {
            let ghost pre = args.exclude@.subrange(0, i + 1);
            assert(pre.drop_last() =~= args.exclude@.subrange(0, i as int));
            assert(pre.last() == args.exclude@[i as int]);
            let mut glob = String::new();
            glob.append("!");
            glob.append(args.exclude[i].as_str());
            assert(glob@ =~= "!"@ + args.exclude@[i as int]@);
            let mut builder = override_builder(".");
            let ok = add_override_glob(&mut builder, glob.as_str());
            if !ok {
                let ghost v0 = v@;
                v.push(args.exclude[i].clone());
                assert(texts(v@) =~= texts(v0).push(args.exclude@[i as int]@));
            }
            i = i + 1;
        }
        assert(args.exclude@.subrange(0, i as int) =~= args.exclude@);
        v
    }
}

/// The patterns of `exclude` whose glob `!<pattern>` keeps a line that does
/// not parse.
pub open spec fn refused_patterns(exclude: Seq<String>) -> Seq<Seq<char>>
    decreases exclude.len(),
{
    if exclude.len() == 0 {
        Seq::empty()
    } else {
        let rest = refused_patterns(exclude.drop_last());
        match kept_override_line("!"@ + exclude.last()@) {
            Some(l) => if override_line_parses(l) {
                rest
            } else {
                rest.push(exclude.last()@)
            },
            None => rest,
        }
    }
}

/// The entries of `paths` whose `exists` flag is set.
pub open spec fn existing(paths: Seq<Seq<char>>, exists: Seq<bool>) -> Seq<Seq<char>>
    decreases paths.len(),
{
    if paths.len() == 0 || exists.len() == 0 {
        Seq::empty()
    } else {
        let rest = existing(paths.drop_last(), exists.drop_last());
        if exists.last() {
            rest.push(paths.last())
        } else {
            rest
        }
    }
}

/// Reducing a list of paths none of which is a directory, with nothing
/// walked, gives the list back: a second reduction of a reduced list, whose
/// entries are all files, changes nothing.
pub proof fn lemma_reduce_without_dirs(paths: Seq<Seq<char>>, is_dir: Seq<bool>)
    requires
        is_dir.len() == paths.len(),
        forall|i: int| 0 <= i < is_dir.len() ==> !#[trigger] is_dir[i],
    ensures
        existing(paths, is_dir.map_values(|d: bool| !d)) + Seq::<Seq<char>>::empty() == paths,
    decreases paths.len(),
{
    let flags = is_dir.map_values(|d: bool| !d);
    if paths.len() > 0 {
        lemma_reduce_without_dirs(paths.drop_last(), is_dir.drop_last());
        assert(flags.drop_last() =~= is_dir.drop_last().map_values(|d: bool| !d));
        assert(flags.last() == !is_dir[is_dir.len() - 1]);
        assert(paths.drop_last().push(paths.last()) =~= paths);
    }
    assert(existing(paths, flags) + Seq::<Seq<char>>::empty() =~= existing(paths, flags));
}

/// The paths of the entries that the fusing command's filter keeps under `args`, in order.
pub open spec fn paths_kept_by_args(entries: Seq<EntryInfo>, args: FusionArgs) -> Seq<Seq<char>>
    decreases entries.len(),
{
    if entries.len() == 0 {
        Seq::empty()
    } else {
        let rest = paths_kept_by_args(entries.drop_last(), args);
        if args_keep(args, entries.last()) {
            rest.push(entries.last().path@)
        } else {
            rest
        }
    }
}

/// The paths of the entries that `filter` keeps, in order.
pub open spec fn kept_paths(entries: Seq<EntryInfo>, filter: FileFilter) -> Seq<Seq<char>>
    decreases entries.len(),
{
    if entries.len() == 0 {
        Seq::empty()
    } else {
        let rest = kept_paths(entries.drop_last(), filter);
        if filter.keeps(entries.last()) {
            rest.push(entries.last().path@)
        } else {
            rest
        }
    }
}

/// Sum of the line counts of the files' contents.
pub open spec fn line_total(files: Seq<(String, Vec<u8>)>) -> nat
    decreases files.len(),
{
    if files.len() == 0 {
        0
    } else {
        line_total(files.drop_last()) + crate::text::line_count(files.last().1@)
    }
}

/// Total number of lines over all files, `None` if it does not fit in `usize`.
pub fn total_lines(files: &[(String, Vec<u8>)]) -> (r: Option<usize>)
    ensures
        r is Some <==> line_total(files@) <= usize::MAX,
        r matches Some(n) ==> n == line_total(files@),
{
    let mut total: usize = 0;
    let mut i: usize = 0;
    while i < files.len()
        invariant
            i <= files@.len(),
            total == line_total(files@.subrange(0, i as int)),
        decreases files@.len() - i,
    {
        assert(files@.subrange(0, i + 1).drop_last() =~= files@.subrange(0, i as int));
        let n = crate::text::count_lines(files[i].1.as_slice());
        match total.checked_add(n) {
            Some(t) => total = t,
            None => {
                proof {
                    lemma_line_total_mono(files@, i + 1);
                }
                return None;
            },
        }
        i = i + 1;
    }
    assert(files@.subrange(0, i as int) =~= files@);
    Some(total)
}

proof fn lemma_line_total_mono(files: Seq<(String, Vec<u8>)>, i: int)
    requires
        0 <= i <= files.len(),
    ensures
        line_total(files.subrange(0, i)) <= line_total(files),
    decreases files.len() - i,
{
    if i < files.len() {
        lemma_line_total_mono(files, i + 1);
        assert(files.subrange(0, i + 1).drop_last() =~= files.subrange(0, i));
    } else {
        assert(files.subrange(0, i) =~= files);
    }
}

/// The `(path, content)` of the reads that succeeded, in order.
pub open spec fn successful_reads(reads: Seq<(String, Option<Vec<u8>>)>) -> Seq<(String, Vec<u8>)>
    decreases reads.len(),
{
    if reads.len() == 0 {
        Seq::empty()
    } else {
        let rest = successful_reads(reads.drop_last());
        match reads.last().1 {
            Some(c) => rest.push((reads.last().0, c)),
            None => rest,
        }
    }
}

} // verus!

verus! {

/// `m` in at least three digits, with leading zeros, as `{:03}` writes it.
pub open spec fn three_digits(m: nat) -> Seq<u8> {
    if m < 10 {
        seq![48u8, 48u8] + crate::text::decimal(m)
    } else if m < 100 {
        seq![48u8] + crate::text::decimal(m)
    } else {
        crate::text::decimal(m)
    }
}

/// The statistics that the information mode reports.
pub open spec fn info_summary_text(files: nat, lines: nat, secs: nat, millis: nat) -> Seq<u8> {
    vstd::utf8::encode_utf8("Found "@) + crate::text::decimal(files) + vstd::utf8::encode_utf8(
        " files\nTotal Lines of Code: "@,
    ) + crate::text::decimal(lines) + vstd::utf8::encode_utf8("\nTime Elapsed: "@) + crate::text::decimal(secs)
        + seq![46u8] + three_digits(millis) + seq![115u8]
}

/// The report of the information mode: the number of files, their total
/// number of lines and the time taken, `secs` seconds and `millis`
/// milliseconds; `None` when the line total does not fit in `usize`.
pub fn info_summary(files: &[(String, Vec<u8>)], secs: u64, millis: u32) -> (r: Option<Vec<u8>>)
    requires
        millis < 1000,
    ensures
        r is Some <==> line_total(files@) <= usize::MAX,
        r matches Some(t) ==> t@ == info_summary_text(files@.len(), line_total(files@), secs as nat, millis as nat),
{
    let lines = match total_lines(files) {
        Some(n) => n,
        None => return None,
    };
    let mut out: Vec<u8> = Vec::new();
    crate::text::push_str(&mut out, "Found ");
    crate::text::push_decimal(&mut out, files.len() as u64);
    crate::text::push_str(&mut out, " files\nTotal Lines of Code: ");
    crate::text::push_decimal(&mut out, lines as u64);
    crate::text::push_str(&mut out, "\nTime Elapsed: ");
    crate::text::push_decimal(&mut out, secs);
    out.push(46u8);
    if millis < 10 {
        out.push(48u8);
        out.push(48u8);
    } else if millis < 100 {
        out.push(48u8);
    }
    crate::text::push_decimal(&mut out, millis as u64);
    out.push(115u8);
    Some(out)
}

} // verus!

verus! {

/// The compiled override globs of a directory walk.
#[verifier::external_type_specification]
#[verifier::external_body]
pub struct ExOverride(ignore::overrides::Override);

/// A builder of override globs.
#[verifier::external_type_specification]
#[verifier::external_body]
pub struct ExOverrideBuilder(ignore::overrides::OverrideBuilder);

/// The glob lines that an override builder holds, in the order they were added.
pub uninterp spec fn builder_globs(b: OverrideBuilder) -> Seq<Seq<char>>;

/// The glob lines that compiled overrides hold, in order.
pub uninterp spec fn override_globs(o: Override) -> Seq<Seq<char>>;

/// The directory that an override builder matches paths relative to.
pub uninterp spec fn builder_root(b: OverrideBuilder) -> Seq<char>;

/// The directory that compiled overrides match paths relative to.
pub uninterp spec fn override_root(o: Override) -> Seq<char>;

/// The root that a builder keeps of the directory it is made with: without
/// a leading `./` (the Unix rule of `ignore`).
pub open spec fn kept_root(root: Seq<char>) -> Seq<char> {
    if root.len() >= 2 && root[0] == '.' && root[1] == '/' {
        root.subrange(2, root.len() as int)
    } else {
        root
    }
}

/// Whether the glob set of these kept lines compiles.
pub uninterp spec fn override_lines_compile(lines: Seq<Seq<char>>) -> bool;

/// Whether a kept glob line parses as a glob of an override builder.
pub uninterp spec fn override_line_parses(line: Seq<char>) -> bool;

/// The line that an override builder keeps of a glob: none for a comment
/// (a leading `#`) or a blank line; otherwise the glob without trailing
/// whitespace, unless it ends with an escaped space.
pub open spec fn kept_override_line(glob: Seq<char>) -> Option<Seq<char>> {
    if glob.len() > 0 && glob[0] == '#' {
        None
    } else {
        let t = if glob.len() >= 2 && glob[glob.len() - 2] == '\\' && glob.last() == ' ' {
            glob
        } else {
            crate::text::trim_end(glob)
        };
        if t.len() == 0 {
            None
        } else {
            Some(t)
        }
    }
}

/// The lines that a builder holds after the globs `gs` were added in turn
/// to an empty one: the kept line of each glob whose line parses.
pub open spec fn accepted_lines(gs: Seq<Seq<char>>) -> Seq<Seq<char>>
    decreases gs.len(),
{
    if gs.len() == 0 {
        Seq::empty()
    } else {
        let rest = accepted_lines(gs.drop_last());
        match kept_override_line(gs.last()) {
            Some(l) => if override_line_parses(l) {
                rest.push(l)
            } else {
                rest
            },
            None => rest,
        }
    }
}

/// The exclude patterns, each behind a `!`.
pub open spec fn exclude_glob_texts(exclude: Seq<String>) -> Seq<Seq<char>> {
    exclude.map_values(|p: String| "!"@ + p@)
}

/// `ignore::overrides::OverrideBuilder::new`: an empty builder whose globs
/// match paths relative to `root`, kept without a leading `./`.
#[verifier::external_body]
fn override_builder(root: &str) -> (b: OverrideBuilder)
    ensures
        builder_globs(b) == Seq::<Seq<char>>::empty(),
        builder_root(b) == kept_root(root@),
{
    OverrideBuilder::new(root)
}

/// `ignore::overrides::OverrideBuilder::add`: keeps the line of `glob` (see
/// [`kept_override_line`]) when it parses, and fails, leaving the builder as
/// it was, when it does not; a comment or blank line is accepted and not kept.
#[verifier::external_body]
fn add_override_glob(builder: &mut OverrideBuilder, glob: &str) -> (ok: bool)
    ensures
        builder_root(*final(builder)) == builder_root(*old(builder)),
        ok == match kept_override_line(glob@) {
            Some(l) => override_line_parses(l),
            None => true,
        },
        builder_globs(*final(builder)) == match kept_override_line(glob@) {
            Some(l) => if override_line_parses(l) {
                builder_globs(*old(builder)).push(l)
            } else {
                builder_globs(*old(builder))
            },
            None => builder_globs(*old(builder)),
        },
{
    builder.add(glob).is_ok()
}

/// `ignore::overrides::OverrideBuilder::build`: the compiled overrides, which
/// hold the builder's lines and its root (or, when it holds no line, no
/// line and an empty root), or `None` when compiling them fails; whether it
/// fails depends on the lines alone ([`override_lines_compile`]), and a
/// builder that holds no line always compiles.
#[verifier::external_body]
fn build_override(builder: &OverrideBuilder) -> (r: Option<Override>)
    ensures
        r is Some <==> override_lines_compile(builder_globs(*builder)),
        r matches Some(o) ==> override_globs(o) == builder_globs(*builder),
        r matches Some(o) ==> override_root(o) == if builder_globs(*builder).len() == 0 {
            Seq::<char>::empty()
        } else {
            builder_root(*builder)
        },
        builder_globs(*builder).len() == 0 ==> r is Some,
{
    builder.build().ok()
}

} // verus!
