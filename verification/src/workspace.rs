//! Which manifest and which directory the tool works from: the workspace
//! root when the given manifest declares `[workspace]`, otherwise the
//! enclosing workspace that lists the crate as a member, if there is one.

use vstd::prelude::*;
use crate::metadata::opt_text;
use crate::paths::{join, join_path, path_eq, path_starts_with, path_without_prefix, paths_equal, starts_with_path, strip_prefix};
use crate::text::{
    chars_of, contains_char, copy_range, find_char_in, index_of_char, lemma_index_of_char, lemma_index_of_char_at,
    line_ranges, lines_of, range_ends_with, range_equals, range_starts_with, range_texts,
    ranges_in_bounds, replace_char, replaced_chars, skip_leading, skip_leading_seq, trim,
    trim_leading, trim_leading_seq, trim_range,
};

verus! {

/// The manifest to parse and the directory to search.
#[derive(Debug)]
pub struct WorkspaceResolution {
    /// The workspace root manifest, or the given manifest when there is no workspace.
    pub manifest_path: String,
    /// The directory whose files are fused: the crate directory in crate
    /// mode, the workspace root otherwise.
    pub search_root: String,
    /// Whether the given manifest is a member of an enclosing workspace.
    pub is_crate_mode: bool,
}

/// `[workspace]`.
pub open spec fn workspace_header() -> Seq<char> {
    seq!['[', 'w', 'o', 'r', 'k', 's', 'p', 'a', 'c', 'e', ']']
}

/// `[workspace.`, the start of a workspace sub-table header.
pub open spec fn workspace_subtable_start() -> Seq<char> {
    seq!['[', 'w', 'o', 'r', 'k', 's', 'p', 'a', 'c', 'e', '.']
}

/// A line that, trimmed, is `[workspace]` or starts with `[workspace.`.
pub open spec fn is_workspace_line(line: Seq<char>) -> bool {
    trim(line) == workspace_header() || workspace_subtable_start().is_prefix_of(trim(line))
}

/// Whether some line of the manifest text opens the workspace table.
pub open spec fn has_workspace_table(text: Seq<char>) -> bool {
    exists|i: int| 0 <= i < lines_of(text).len() && is_workspace_line(#[trigger] lines_of(text)[i])
}

/// Whether some line of `toml_text`, trimmed, is `[workspace]` or starts
/// with `[workspace.`.
pub fn contains_workspace_table(toml_text: &str) -> (b: bool)
    ensures
        b == has_workspace_table(toml_text@),
{
    let chars = chars_of(toml_text);
    let ranges = line_ranges(&chars);
    let header: [char; 11] = ['[', 'w', 'o', 'r', 'k', 's', 'p', 'a', 'c', 'e', ']'];
    let sub: [char; 11] = ['[', 'w', 'o', 'r', 'k', 's', 'p', 'a', 'c', 'e', '.'];
    assert(header@ =~= workspace_header());
    assert(sub@ =~= workspace_subtable_start());
    let ghost lines = lines_of(toml_text@);
    let mut i: usize = 0;
    while i < ranges.len()
        invariant
            chars@ == toml_text@,
            lines == lines_of(toml_text@),
            lines == range_texts(chars@, ranges@),
            ranges_in_bounds(chars@, ranges@),
            header@ == workspace_header(),
            sub@ == workspace_subtable_start(),
            i <= ranges@.len(),
            forall|j: int| 0 <= j < i ==> !is_workspace_line(#[trigger] lines[j]),
        decreases ranges@.len() - i,
    {
        let (a, b) = ranges[i];
        assert(ranges@[i as int].0 <= ranges@[i as int].1 <= chars@.len());
        assert(lines[i as int] == chars@.subrange(a as int, b as int));
        let (ta, tb) = trim_range(&chars, a, b);
        if range_equals(&chars, ta, tb, &header) || range_starts_with(&chars, ta, tb, &sub) {
            assert(is_workspace_line(lines[i as int]));
            return true;
        }
        i = i + 1;
    }
    false
}

/// Workspace member matching as its documentation states it: `*` stands for
/// any text without `/`, and the pattern must cover the whole input.
pub open spec fn single_star_match(pattern: Seq<char>, input: Seq<char>) -> bool {
    let k = index_of_char(pattern, '*');
    if k >= pattern.len() {
        pattern == input
    } else {
        let prefix = pattern.subrange(0, k);
        let suffix = pattern.subrange(k + 1, pattern.len() as int);
        &&& prefix.len() + suffix.len() <= input.len()
        &&& prefix.is_prefix_of(input)
        &&& suffix.is_suffix_of(input)
        &&& !contains_char(input.subrange(prefix.len() as int, input.len() - suffix.len()), '/')
    }
}

/// A `*` stands for exactly the text between the pattern's prefix and
/// suffix, and matches it if and only if that text holds no `/`: a member
/// glob never reaches across a directory boundary.
pub proof fn lemma_star_stays_in_segment(prefix: Seq<char>, suffix: Seq<char>, middle: Seq<char>)
    requires
        !contains_char(prefix, '*'),
    ensures
        single_star_match(prefix + seq!['*'] + suffix, prefix + middle + suffix) <==> !contains_char(middle, '/'),
{
    let pattern = prefix + seq!['*'] + suffix;
    let input = prefix + middle + suffix;
    lemma_index_of_char(prefix, '*');
    assert forall|j: int| 0 <= j < prefix.len() implies pattern[j] != '*' by {
        assert(pattern[j] == prefix[j]);
    }
    lemma_index_of_char_at(pattern, '*', prefix.len() as int);
    assert(pattern.subrange(0, prefix.len() as int) =~= prefix);
    assert(pattern.subrange(prefix.len() as int + 1, pattern.len() as int) =~= suffix);
    assert(prefix.is_prefix_of(input)) by {
        assert(input.subrange(0, prefix.len() as int) =~= prefix);
    }
    assert(suffix.is_suffix_of(input)) by {
        assert(input.subrange(input.len() - suffix.len(), input.len() as int) =~= suffix);
    }
    assert(input.subrange(prefix.len() as int, input.len() - suffix.len()) =~= middle);
}

/// Executable form of [`single_star_match`].
pub fn simple_glob_matches(pattern: &str, input: &str) -> (b: bool)
    ensures
        b == single_star_match(pattern@, input@),
{
    let p = chars_of(pattern);
    let s = chars_of(input);
    glob_match_chars(&p, &s)
}

/// Member matching as the crate-mode search does it: [`single_star_match`].
pub fn glob_pattern_matches(pattern: &str, input: &str) -> (b: bool)
    ensures
        b == single_star_match(pattern@, input@),
{
    let p = chars_of(pattern);
    let s = chars_of(input);
    glob_match_chars(&p, &s)
}

fn glob_match_chars(p: &Vec<char>, s: &Vec<char>) -> (b: bool)
    ensures
        b == single_star_match(p@, s@),
{
    let np = p.len();
    let ns = s.len();
    let k = find_char_in(p, 0, np, '*');
    assert(p@.subrange(0, np as int) =~= p@);
    assert(s@.subrange(0, ns as int) =~= s@);
    proof {
        lemma_index_of_char(p@, '*');
    }
    if k == np {
        return range_equals(s, 0, ns, p.as_slice());
    }
    let prefix = copy_range(p, 0, k);
    let suffix = copy_range(p, k + 1, np);
    if k + suffix.len() > ns {
        return false;
    }
    if !range_starts_with(s, 0, ns, prefix.as_slice()) || !range_ends_with(s, 0, ns, suffix.as_slice()) {
        return false;
    }
    let mid_end = ns - suffix.len();
    let slash = find_char_in(s, k, mid_end, '/');
    proof {
        lemma_index_of_char(s@.subrange(k as int, mid_end as int), '/');
    }
    slash == mid_end - k
}


/// Member matching of a glob pattern against a crate directory: both are
/// taken relative to the workspace directory, with `\\` read as `/`.
pub open spec fn relative_glob_match(pattern: Seq<char>, crate_dir: Seq<char>, workspace_dir: Seq<char>) -> bool {
    match path_without_prefix(crate_dir, workspace_dir) {
        None => false,
        Some(rel) => single_star_match(
            trim_leading(
                trim_leading_seq(replace_char(pattern, '\\', '/'), replace_char(workspace_dir, '\\', '/')),
                '/',
            ),
            replace_char(rel, '\\', '/'),
        ),
    }
}

/// Matches a member glob against `crate_dir`, both relative to
/// `workspace_dir`; false when `crate_dir` is not inside `workspace_dir`.
pub fn simple_glob_match(pattern: &str, crate_dir: &str, workspace_dir: &str) -> (b: bool)
    ensures
        b == relative_glob_match(pattern@, crate_dir@, workspace_dir@),
        !crate::paths::path_starts_with(crate_dir@, workspace_dir@) ==> !b,
{
    let rel = match strip_prefix(crate_dir, workspace_dir) {
        Some(r) => r,
        None => return false,
    };
    let rel_v = replaced_chars(rel.as_str(), '\\', '/');
    let ws_v = replaced_chars(workspace_dir, '\\', '/');
    let pat_v = replaced_chars(pattern, '\\', '/');
    let a = skip_leading_seq(&pat_v, 0, &ws_v);
    let b = skip_leading(&pat_v, a, pat_v.len(), '/');
    let pattern_rel = copy_range(&pat_v, b, pat_v.len());
    assert(pat_v@.subrange(0, pat_v@.len() as int) =~= pat_v@);
    glob_match_chars(&pattern_rel, &rel_v)
}

/// Whether a member pattern (already joined onto the workspace directory)
/// covers `crate_dir`: a pattern with `*` by [`relative_glob_match`], any
/// other by its canonical form, which `crate_dir` must equal or lie under.
pub open spec fn member_matches(
    pattern: Seq<char>,
    canonical: Option<Seq<char>>,
    crate_dir: Seq<char>,
    workspace_dir: Seq<char>,
) -> bool {
    if contains_char(pattern, '*') {
        relative_glob_match(pattern, crate_dir, workspace_dir)
    } else {
        match canonical {
            Some(cp) => path_eq(crate_dir, cp) || path_starts_with(crate_dir, cp),
            None => false,
        }
    }
}

/// Executable form of [`member_matches`]; `canonical` is the canonical form
/// of `pattern_path`, `None` when it could not be made canonical.
pub fn glob_matches(pattern_path: &str, canonical: &Option<String>, crate_dir: &str, workspace_dir: &str) -> (b: bool)
    ensures
        b == member_matches(pattern_path@, opt_text(*canonical), crate_dir@, workspace_dir@),
{
    let p = chars_of(pattern_path);
    let star = find_char_in(&p, 0, p.len(), '*');
    assert(p@.subrange(0, p@.len() as int) =~= p@);
    if star < p.len() {
        simple_glob_match(pattern_path, crate_dir, workspace_dir)
    } else {
        match canonical {
            Some(cp) => paths_equal(crate_dir, cp.as_str()) || starts_with_path(crate_dir, cp.as_str()),
            None => false,
        }
    }
}

/// The view of a parsed TOML document, as far as the tool reads it: each
/// top-level key with its value, a table (`Some`) or anything else (`None`);
/// each key of such a table with its value, an array (`Some`) or anything
/// else (`None`); each array entry as text when it is a string.
pub open spec fn document_view(
    doc: Vec<(String, Option<Vec<(String, Option<Vec<Option<String>>>)>>)>,
) -> Seq<(Seq<char>, Option<Seq<(Seq<char>, Option<Seq<Option<Seq<char>>>>)>>)> {
    doc@.map_values(
        |e: (String, Option<Vec<(String, Option<Vec<Option<String>>>)>>)|
            (e.0@, match e.1 {
                Some(t) => Some(table_view(t)),
                None => None,
            }),
    )
}

/// The view of a table inside a document, see [`document_view`].
pub open spec fn table_view(t: Vec<(String, Option<Vec<Option<String>>>)>) -> Seq<(Seq<char>, Option<Seq<Option<Seq<char>>>>)> {
    t@.map_values(|f: (String, Option<Vec<Option<String>>>)| (f.0@, match f.1 {
        Some(a) => Some(a@.map_values(|o: Option<String>| opt_text(o))),
        None => None,
    }))
}

/// What `toml` makes of a manifest's text: the parse error message, or the
/// document as [`document_view`] shows it.
pub uninterp spec fn toml_document(
    text: Seq<char>,
) -> Result<Seq<(Seq<char>, Option<Seq<(Seq<char>, Option<Seq<Option<Seq<char>>>>)>>)>, Seq<char>>;

/// The parse result of a manifest's text in the shape of [`document_view`].
pub open spec fn parsed_view(
    r: Result<Vec<(String, Option<Vec<(String, Option<Vec<Option<String>>>)>>)>, String>,
) -> Result<Seq<(Seq<char>, Option<Seq<(Seq<char>, Option<Seq<Option<Seq<char>>>>)>>)>, Seq<char>> {
    match r {
        Ok(doc) => Ok(document_view(doc)),
        Err(e) => Err(e@),
    }
}

/// `toml::from_str` of a manifest's text into a table, each value converted
/// to the shape of [`document_view`]. The result is taken as the named value
/// [`toml_document`] of the text.
#[verifier::external_body]
fn parse_toml_document(text: &str) -> (r: Result<Vec<(String, Option<Vec<(String, Option<Vec<Option<String>>>)>>)>, String>)
    ensures
        parsed_view(r) == toml_document(text@),
{
    let table: toml::Table = toml::from_str(text).map_err(|e| e.to_string())?;
    Ok(table.into_iter().map(|(k, v)| (k, match v {
        toml::Value::Table(t) => Some(t.into_iter().map(|(k2, v2)| (k2, match v2 {
            toml::Value::Array(a) => Some(a.into_iter().map(|x| match x {
                toml::Value::String(s) => Some(s),
                _ => None,
            }).collect()),
            _ => None,
        })).collect()),
        _ => None,
    })).collect())
}

/// Position of the first entry named `key` in `keys`, or the length when there is none.
pub open spec fn key_position(keys: Seq<Seq<char>>, key: Seq<char>) -> int
    decreases keys.len(),
{
    if keys.len() == 0 {
        0
    } else if keys[0] == key {
        0
    } else {
        1 + key_position(keys.drop_first(), key)
    }
}

proof fn lemma_key_position_at(keys: Seq<Seq<char>>, key: Seq<char>, k: int)
    requires
        0 <= k <= keys.len(),
        k < keys.len() ==> keys[k] == key,
        forall|j: int| 0 <= j < k ==> keys[j] != key,
    ensures
        key_position(keys, key) == k,
    decreases keys.len(),
{
    if keys.len() > 0 && k > 0 {
        assert(keys[0] != key);
        assert forall|j: int| 0 <= j < k - 1 implies keys.drop_first()[j] != key by {
            assert(keys.drop_first()[j] == keys[j + 1]);
        }
        lemma_key_position_at(keys.drop_first(), key, k - 1);
    }
}

/// The value of the first entry named `key`, if there is one: a TOML table
/// has each key once.
pub open spec fn lookup<V>(entries: Seq<(Seq<char>, V)>, key: Seq<char>) -> Option<V> {
    let k = key_position(entries.map_values(|e: (Seq<char>, V)| e.0), key);
    if 0 <= k < entries.len() {
        Some(entries[k].1)
    } else {
        None
    }
}

/// What the `members` list of a workspace manifest's text is: the parse
/// error message, no list (no `workspace` table or no `members` array in it),
/// or the list with each entry as text when it is a string.
pub open spec fn toml_workspace_members(text: Seq<char>) -> Result<Option<Seq<Option<Seq<char>>>>, Seq<char>> {
    match toml_document(text) {
        Err(e) => Err(e),
        Ok(doc) => match lookup(doc, "workspace"@) {
            Some(Some(ws)) => match lookup(ws, "members"@) {
                Some(Some(arr)) => Ok(Some(arr)),
                _ => Ok(None),
            },
            _ => Ok(None),
        },
    }
}

/// The text view of a parsed member list.
pub open spec fn members_view(r: Result<Option<Vec<Option<String>>>, String>) -> Result<Option<Seq<Option<Seq<char>>>>, Seq<char>> {
    match r {
        Err(e) => Err(e@),
        Ok(None) => Ok(None),
        Ok(Some(v)) => Ok(Some(v@.map_values(|o: Option<String>| opt_text(o)))),
    }
}

/// Whether two texts are equal.
fn same_text(a: &str, b: &str) -> (r: bool)
    ensures
        r == (a@ == b@),
{
    let ca = chars_of(a);
    let cb = chars_of(b);
    assert(ca@.subrange(0, ca@.len() as int) =~= ca@);
    range_equals(&ca, 0, ca.len(), cb.as_slice())
}

/// Position of the first entry named `key`, or the length when there is none.
fn key_index<V>(entries: &Vec<(String, V)>, key: &str) -> (i: usize)
    ensures
        i == key_position(entries@.map_values(|e: (String, V)| e.0@), key@),
        i <= entries@.len(),
{
    let ghost keys = entries@.map_values(|e: (String, V)| e.0@);
    let mut i: usize = 0;
    while i < entries.len()
        invariant
            keys == entries@.map_values(|e: (String, V)| e.0@),
            i <= entries@.len(),
            forall|j: int| 0 <= j < i ==> keys[j] != key@,
        decreases entries@.len() - i,
    {
        if same_text(entries[i].0.as_str(), key) {
            proof {
                lemma_key_position_at(keys, key@, i as int);
            }
            return i;
        }
        i = i + 1;
    }
    proof {
        lemma_key_position_at(keys, key@, i as int);
    }
    i
}

/// The `members` list of the `workspace` table of a manifest's text: the
/// parse error message, no list, or each entry as text when it is a string.
fn parse_workspace_members(text: &str) -> (r: Result<Option<Vec<Option<String>>>, String>)
    ensures
        members_view(r) == toml_workspace_members(text@),
{
    let parsed = parse_toml_document(text);
    match parsed {
        Err(e) => Err(e),
        Ok(doc) => {
            let mut doc = doc;
            let ghost dv = document_view(doc);
            let i = key_index(&doc, "workspace");
            assert(dv.map_values(|e: (Seq<char>, Option<Seq<(Seq<char>, Option<Seq<Option<Seq<char>>>>)>>)| e.0)
                =~= doc@.map_values(|e: (String, Option<Vec<(String, Option<Vec<Option<String>>>)>>)| e.0@));
            if i == doc.len() {
                return Ok(None);
            }
            let ghost d0 = doc@;
            let (_, ws) = doc.remove(i);
            assert(dv[i as int].1 == match d0[i as int].1 {
                Some(t) => Some(table_view(t)),
                None => None::<Seq<(Seq<char>, Option<Seq<Option<Seq<char>>>>)>>,
            });
            match ws {
                None => Ok(None),
                Some(t) => {
                    let mut t = t;
                    let ghost tv = table_view(t);
                    let j = key_index(&t, "members");
                    assert(tv.map_values(|f: (Seq<char>, Option<Seq<Option<Seq<char>>>>)| f.0)
                        =~= t@.map_values(|f: (String, Option<Vec<Option<String>>>)| f.0@));
                    if j == t.len() {
                        return Ok(None);
                    }
                    let ghost t0 = t@;
                    let (_, m) = t.remove(j);
                    assert(tv[j as int].1 == match t0[j as int].1 {
                        Some(a) => Some(a@.map_values(|o: Option<String>| opt_text(o))),
                        None => None::<Seq<Option<Seq<char>>>>,
                    });
                    Ok(m)
                },
            }
        },
    }
}

/// What a candidate workspace manifest says about its members.
#[derive(Debug)]
pub enum MemberScan {
    /// The manifest has no workspace table.
    NotWorkspace,
    /// The workspace has no member list, so it covers every crate below it.
    AllMembers,
    /// The string members, each joined onto the workspace directory.
    Patterns(Vec<String>),
}

/// Why resolving the workspace failed.
#[derive(Debug)]
pub enum WorkspaceError {
    /// The manifest path could not be made canonical; the text says why.
    Canonicalize(String),
    /// The manifest has no parent directory.
    NoParent,
    /// A manifest could not be read; the text says why.
    Read(String),
    /// The workspace manifest at `manifest` could not be parsed; `reason` says why.
    Parse { manifest: String, reason: String },
}

/// The message of each failure of the workspace search.
pub open spec fn workspace_error_text(e: WorkspaceError) -> Seq<char> {
    match e {
        WorkspaceError::Canonicalize(m) => m@,
        WorkspaceError::NoParent => "Cargo.toml has no parent directory"@,
        WorkspaceError::Read(m) => m@,
        WorkspaceError::Parse { manifest, reason } => "failed to parse "@ + manifest@,
    }
}

impl WorkspaceError {
    /// The message that explains the failure.
    pub fn message(&self) -> (s: String)
        ensures
            s@ == workspace_error_text(*self),
    {
        match self {
            WorkspaceError::Canonicalize(m) => m.clone(),
            WorkspaceError::NoParent => "Cargo.toml has no parent directory".to_owned(),
            WorkspaceError::Read(m) => m.clone(),
            WorkspaceError::Parse { manifest, reason } => {
                let mut s = "failed to parse ".to_owned();
                s.append(manifest.as_str());
                s
            },
        }
    }
}

/// The string entries of `members`, each joined onto `dir`.
pub open spec fn joined_members(members: Seq<Option<Seq<char>>>, dir: Seq<char>) -> Seq<Seq<char>>
    decreases members.len(),
{
    if members.len() == 0 {
        Seq::empty()
    } else {
        let rest = joined_members(members.drop_last(), dir);
        match members.last() {
            Some(m) => rest.push(join_path(dir, m)),
            None => rest,
        }
    }
}

/// Reads the member list of the manifest text of a candidate workspace in
/// `workspace_dir`: [`MemberScan::NotWorkspace`] when no line opens the
/// workspace table, a parse error, [`MemberScan::AllMembers`] when there is
/// no member list, otherwise the string members joined onto the directory.
pub fn workspace_member_patterns(workspace_dir: &str, text: &str) -> (r: Result<MemberScan, WorkspaceError>)
    ensures
        !has_workspace_table(text@) ==> (r matches Ok(s) && s is NotWorkspace),
        has_workspace_table(text@) ==> match toml_workspace_members(text@) {
            Err(e) => r matches Err(WorkspaceError::Parse { manifest, reason }) && reason@ == e && manifest@
                == join_path(workspace_dir@, manifest_file_name()),
            Ok(None) => r matches Ok(s) && s is AllMembers,
            Ok(Some(m)) => r matches Ok(MemberScan::Patterns(v)) && crate::paths::texts(v@)
                == joined_members(m, workspace_dir@),
        },
{
    if !contains_workspace_table(text) {
        return Ok(MemberScan::NotWorkspace);
    }
    let parsed = parse_workspace_members(text);
    match parsed {
        Err(e) => {
            let name: &str = "Cargo.toml";
            proof {
                reveal_strlit("Cargo.toml");
                assert(name@ =~= manifest_file_name());
            }
            Err(WorkspaceError::Parse { manifest: join(workspace_dir, name), reason: e })
        },
        Ok(None) => Ok(MemberScan::AllMembers),
        Ok(Some(members)) => {
            let ghost mv = members@.map_values(|o: Option<String>| opt_text(o));
            let mut v: Vec<String> = Vec::new();
            let mut i: usize = 0;
            while i < members.len()
                invariant
                    mv == members@.map_values(|o: Option<String>| opt_text(o)),
                    i <= members@.len(),
                    crate::paths::texts(v@) == joined_members(mv.subrange(0, i as int), workspace_dir@),
                decreases members@.len() - i,
            {
                let ghost next = mv.subrange(0, i as int + 1);
                assert(next.drop_last() =~= mv.subrange(0, i as int));
                assert(next.last() == opt_text(members@[i as int]));
                if let Some(m) = &members[i] {
                    let ghost v0 = v@;
                    v.push(join(workspace_dir, m.as_str()));
                    assert(crate::paths::texts(v@) =~= crate::paths::texts(v0).push(join_path(workspace_dir@, m@)));
                }
                i = i + 1;
            }
            assert(mv.subrange(0, i as int) =~= mv);
            Ok(MemberScan::Patterns(v))
        },
    }
}

/// Whether a candidate workspace covers `crate_dir`, given the scan of its
/// manifest and, for every pattern, its canonical form (`None` when it has
/// none): never when it is not a workspace, always when it lists no members,
/// otherwise when some pattern matches.
pub fn workspace_root_contains(
    scan: &MemberScan,
    canonical: &Vec<Option<String>>,
    crate_dir: &str,
    workspace_dir: &str,
) -> (b: bool)
    requires
        scan matches MemberScan::Patterns(ps) ==> canonical@.len() == ps@.len(),
    ensures
        b == match scan {
            MemberScan::NotWorkspace => false,
            MemberScan::AllMembers => true,
            MemberScan::Patterns(ps) => exists|i: int|
                0 <= i < ps@.len() && member_matches(
                    #[trigger] ps@[i]@,
                    opt_text(canonical@[i]),
                    crate_dir@,
                    workspace_dir@,
                ),
        },
{
    match scan {
        MemberScan::NotWorkspace => false,
        MemberScan::AllMembers => true,
        MemberScan::Patterns(ps) => {
            let mut i: usize = 0;
            while i < ps.len()
                invariant
                    scan->Patterns_0 == *ps,
                    scan is Patterns,
                    canonical@.len() == ps@.len(),
                    i <= ps@.len(),
                    forall|j: int|
                        0 <= j < i ==> !member_matches(
                            #[trigger] ps@[j]@,
                            opt_text(canonical@[j]),
                            crate_dir@,
                            workspace_dir@,
                        ),
                decreases ps@.len() - i,
            {
                if glob_matches(ps[i].as_str(), &canonical[i], crate_dir, workspace_dir) {
                    assert(member_matches(ps@[i as int]@, opt_text(canonical@[i as int]), crate_dir@, workspace_dir@));
                    assert(scan->Patterns_0 == *ps);
                    assert(exists|q: int| 0 <= q < ps@.len() && member_matches(
                        #[trigger] ps@[q]@,
                        opt_text(canonical@[q]),
                        crate_dir@,
                        workspace_dir@,
                    ));
                    return true;
                }
                i = i + 1;
            }
            false
        },
    }
}

} // verus!

verus! {

/// What the caller of a workspace search must do next.
#[derive(Debug)]
pub enum ResolveAction {
    /// Make this path canonical; answer with [`ResolveEvent::Canonicalized`].
    Canonicalize(String),
    /// Read the given manifest; answer with [`ResolveEvent::ManifestRead`].
    ReadManifest(String),
    /// Say whether this candidate manifest exists; answer with [`ResolveEvent::Exists`].
    CheckExists(String),
    /// Read this candidate manifest; answer with [`ResolveEvent::CandidateRead`].
    ReadCandidate(String),
    /// Make each of these member paths canonical (`None` where that fails);
    /// answer with [`ResolveEvent::MembersCanonicalized`].
    CanonicalizeMembers(Vec<String>),
    /// The search is over.
    Done(Result<WorkspaceResolution, WorkspaceError>),
}

/// The caller's answer to a [`ResolveAction`].
pub enum ResolveEvent {
    Canonicalized(Result<String, String>),
    ManifestRead(Result<String, String>),
    Exists(bool),
    CandidateRead(Result<String, String>),
    MembersCanonicalized(Vec<Option<String>>),
}

/// The state of the search for the manifest and directory to work from.
pub struct WorkspaceSearch {
    phase: u8,
    canonical: String,
    crate_dir: String,
    current: String,
    patterns: Vec<String>,
}

/// `Cargo.toml`.
pub open spec fn manifest_file_name() -> Seq<char> {
    seq!['C', 'a', 'r', 'g', 'o', '.', 't', 'o', 'm', 'l']
}

impl WorkspaceSearch {
    /// 0: waits for the canonical path; 1: for the manifest text; 2: for
    /// whether the candidate exists; 3: for the candidate text; 4: for the
    /// canonical members; 5: done.
    pub closed spec fn phase(&self) -> u8 {
        self.phase
    }

    /// The canonical form of the given manifest path.
    pub closed spec fn canonical(&self) -> Seq<char> {
        self.canonical@
    }

    /// The crate directory: the parent of the canonical manifest path.
    pub closed spec fn crate_dir(&self) -> Seq<char> {
        self.crate_dir@
    }

    /// The directory whose `Cargo.toml` is the current candidate.
    pub closed spec fn current_dir(&self) -> Seq<char> {
        self.current@
    }

    /// The member patterns waiting for their canonical forms.
    pub closed spec fn pending_patterns(&self) -> Seq<Seq<char>> {
        crate::paths::texts(self.patterns@)
    }

    /// Starts the search for `manifest_path`: the first action makes it canonical.
    pub fn start(manifest_path: &str) -> (r: (WorkspaceSearch, ResolveAction))
        ensures
            r.0.phase() == 0,
            r.1 matches ResolveAction::Canonicalize(p) && p@ == manifest_path@,
    {
        let s = WorkspaceSearch {
            phase: 0,
            canonical: String::new(),
            crate_dir: String::new(),
            current: String::new(),
            patterns: Vec::new(),
        };
        (s, ResolveAction::Canonicalize(manifest_path.to_owned()))
    }

    /// The resolution in which `manifest` is used and the crate directory searched.
    fn resolution(&self, manifest: String, crate_mode: bool) -> (r: WorkspaceResolution)
        ensures
            r.manifest_path == manifest,
            r.search_root@ == self.crate_dir@,
            r.is_crate_mode == crate_mode,
    {
        WorkspaceResolution { manifest_path: manifest, search_root: self.crate_dir.clone(), is_crate_mode: crate_mode }
    }

    /// Moves the candidate to the parent of `dir`, or ends the search with
    /// the given manifest in standalone mode when there is none.
    fn move_up_from(&mut self, dir: String) -> (a: ResolveAction)
        ensures
            final(self).canonical() == old(self).canonical(),
            final(self).crate_dir() == old(self).crate_dir(),
            crate::paths::parent_of_path(dir@) is None ==> final(self).phase() == 5 && is_standalone(a, old(self).canonical(), old(self).crate_dir()),
            crate::paths::parent_of_path(dir@) matches Some(d) ==> final(self).phase() == 2
                && final(self).current_dir() == d && (a matches ResolveAction::CheckExists(p) && p@
                == join_path(d, manifest_file_name())),
    {
        match crate::paths::parent(dir.as_str()) {
            Some(d) => {
                self.current = d;
                self.phase = 2;
                let name: &str = "Cargo.toml";
                proof {
                    reveal_strlit("Cargo.toml");
                    assert(name@ =~= manifest_file_name());
                }
                ResolveAction::CheckExists(join(self.current.as_str(), name))
            },
            None => {
                self.phase = 5;
                let r = self.resolution(self.canonical.clone(), false);
                ResolveAction::Done(Ok(r))
            },
        }
    }
}

/// One step of the search for the manifest to parse and the directory to
/// fuse: takes the caller's answer to the last action and returns the next.
/// A manifest that declares `[workspace]` is used with its own directory;
/// otherwise the parents of the crate directory are tried in turn, and the
/// first whose `Cargo.toml` is a workspace covering the crate gives the
/// manifest, while the crate directory stays the one searched; without such
/// a workspace the given manifest and its directory are used.
pub fn resolve_workspace_manifest(search: &mut WorkspaceSearch, event: ResolveEvent) -> (a: ResolveAction)
    requires
        event is Canonicalized ==> old(search).phase() == 0,
        event is ManifestRead ==> old(search).phase() == 1,
        event is Exists ==> old(search).phase() == 2,
        event is CandidateRead ==> old(search).phase() == 3,
        event matches ResolveEvent::MembersCanonicalized(c) ==> old(search).phase() == 4 && c@.len()
            == old(search).pending_patterns().len(),
    ensures
        a is Done <==> final(search).phase() == 5,
        !(event is Canonicalized) ==> final(search).canonical() == old(search).canonical() && final(search).crate_dir() == old(search).crate_dir(),
        a matches ResolveAction::Done(Ok(r)) ==> r.search_root@ == old(search).crate_dir()
            && (!r.is_crate_mode ==> r.manifest_path@ == old(search).canonical()),
        match event {
            ResolveEvent::Canonicalized(Err(e)) => a matches ResolveAction::Done(Err(WorkspaceError::Canonicalize(m))) && m == e,
            ResolveEvent::Canonicalized(Ok(c)) => final(search).canonical() == c@ && match crate::paths::parent_of_path(c@) {
                None => a matches ResolveAction::Done(Err(e)) && e is NoParent,
                Some(d) => final(search).crate_dir() == d && final(search).phase() == 1 && (a matches ResolveAction::ReadManifest(p) && p@ == c@),
            },
            ResolveEvent::ManifestRead(Err(e)) => a matches ResolveAction::Done(Err(WorkspaceError::Read(m))) && m == e,
            ResolveEvent::ManifestRead(Ok(t)) => if has_workspace_table(t@) {
                is_standalone(a, old(search).canonical(), old(search).crate_dir())
            } else {
                moves_up(a, old(search).crate_dir(), old(search).canonical(), old(search).crate_dir(), *final(search))
            },
            ResolveEvent::Exists(true) => final(search).phase() == 3 && final(search).current_dir() == old(search).current_dir()
                && (a matches ResolveAction::ReadCandidate(p) && p@ == join_path(old(search).current_dir(), manifest_file_name())),
            ResolveEvent::Exists(false) => moves_up(a, old(search).current_dir(), old(search).canonical(), old(search).crate_dir(), *final(search)),
            ResolveEvent::CandidateRead(Err(e)) => a matches ResolveAction::Done(Err(WorkspaceError::Read(m))) && m == e,
            ResolveEvent::CandidateRead(Ok(t)) => if !has_workspace_table(t@) {
                moves_up(a, old(search).current_dir(), old(search).canonical(), old(search).crate_dir(), *final(search))
            } else {
                match toml_workspace_members(t@) {
                    Err(e) => a matches ResolveAction::Done(Err(WorkspaceError::Parse { manifest, reason })) && reason@ == e
                        && manifest@ == join_path(old(search).current_dir(), manifest_file_name()),
                    Ok(None) => in_crate_mode(a, old(search).current_dir(), old(search).crate_dir()),
                    Ok(Some(m)) => final(search).phase() == 4 && final(search).current_dir() == old(search).current_dir()
                        && (a matches ResolveAction::CanonicalizeMembers(ps) && crate::paths::texts(ps@) == final(search).pending_patterns()
                        && crate::paths::texts(ps@) == joined_members(m, old(search).current_dir())),
                }
            },
            ResolveEvent::MembersCanonicalized(c) => if workspace_root_contains_spec(
                old(search).pending_patterns(),
                c@,
                old(search).crate_dir(),
                old(search).current_dir(),
            ) {
                in_crate_mode(a, old(search).current_dir(), old(search).crate_dir())
            } else {
                moves_up(a, old(search).current_dir(), old(search).canonical(), old(search).crate_dir(), *final(search))
            },
        },
{
    match event {
        ResolveEvent::Canonicalized(Err(e)) => {
            search.phase = 5;
            ResolveAction::Done(Err(WorkspaceError::Canonicalize(e)))
        },
        ResolveEvent::Canonicalized(Ok(c)) => {
            search.canonical = c;
            match crate::paths::parent(search.canonical.as_str()) {
                Some(d) => {
                    search.crate_dir = d;
                    search.phase = 1;
                    ResolveAction::ReadManifest(search.canonical.clone())
                },
                None => {
                    search.phase = 5;
                    ResolveAction::Done(Err(WorkspaceError::NoParent))
                },
            }
        },
        ResolveEvent::ManifestRead(Err(e)) => {
            search.phase = 5;
            ResolveAction::Done(Err(WorkspaceError::Read(e)))
        },
        ResolveEvent::ManifestRead(Ok(text)) => {
            if contains_workspace_table(text.as_str()) {
                search.phase = 5;
                let r = search.resolution(search.canonical.clone(), false);
                ResolveAction::Done(Ok(r))
            } else {
                let dir = search.crate_dir.clone();
                search.move_up_from(dir)
            }
        },
        ResolveEvent::Exists(true) => {
            search.phase = 3;
            let name: &str = "Cargo.toml";
            proof {
                reveal_strlit("Cargo.toml");
                assert(name@ =~= manifest_file_name());
            }
            ResolveAction::ReadCandidate(join(search.current.as_str(), name))
        },
        ResolveEvent::Exists(false) => {
            let dir = search.current.clone();
            search.move_up_from(dir)
        },
        ResolveEvent::CandidateRead(Err(e)) => {
            search.phase = 5;
            ResolveAction::Done(Err(WorkspaceError::Read(e)))
        },
        ResolveEvent::CandidateRead(Ok(text)) => {
            let name: &str = "Cargo.toml";
            proof {
                reveal_strlit("Cargo.toml");
                assert(name@ =~= manifest_file_name());
            }
            match workspace_member_patterns(search.current.as_str(), text.as_str()) {
                Err(e) => {
                    search.phase = 5;
                    ResolveAction::Done(Err(e))
                },
                Ok(MemberScan::NotWorkspace) => {
                    let dir = search.current.clone();
                    search.move_up_from(dir)
                },
                Ok(MemberScan::AllMembers) => {
                    search.phase = 5;
                    let m = join(search.current.as_str(), name);
                    let r = search.resolution(m, true);
                    ResolveAction::Done(Ok(r))
                },
                Ok(MemberScan::Patterns(ps)) => {
                    search.phase = 4;
                    search.patterns = ps;
                    ResolveAction::CanonicalizeMembers(search.patterns.clone())
                },
            }
        },
        ResolveEvent::MembersCanonicalized(canonical) => {
            let ps = search.patterns.clone();
            assert(crate::paths::texts(ps@) =~= crate::paths::texts(search.patterns@));
            let scan = MemberScan::Patterns(ps);
            if workspace_root_contains(&scan, &canonical, search.crate_dir.as_str(), search.current.as_str()) {
                proof {
                    let ps = scan->Patterns_0;
                    let i = choose|i: int| 0 <= i < ps@.len() && member_matches(#[trigger] ps@[i]@, opt_text(canonical@[i]), search.crate_dir@, search.current@);
                    assert(crate::paths::texts(ps@)[i] == ps@[i]@);
                    assert(workspace_root_contains_spec(crate::paths::texts(search.patterns@), canonical@, search.crate_dir@, search.current@));
                }
                search.phase = 5;
                let name: &str = "Cargo.toml";
                proof {
                    reveal_strlit("Cargo.toml");
                    assert(name@ =~= manifest_file_name());
                }
                let m = join(search.current.as_str(), name);
                let r = search.resolution(m, true);
                ResolveAction::Done(Ok(r))
            } else {
                let dir = search.current.clone();
                search.move_up_from(dir)
            }
        },
    }
}

/// The search moved on from `from` to its parent: the next candidate is the
/// parent's `Cargo.toml`, or, when `from` has no parent, the search ended
/// with the given manifest and its directory.
pub open spec fn moves_up(
    a: ResolveAction,
    from: Seq<char>,
    canonical: Seq<char>,
    crate_dir: Seq<char>,
    after: WorkspaceSearch,
) -> bool {
    match crate::paths::parent_of_path(from) {
        None => is_standalone(a, canonical, crate_dir),
        Some(d) => after.phase() == 2 && after.current_dir() == d && (a matches ResolveAction::CheckExists(p) && p@
            == join_path(d, manifest_file_name())),
    }
}

/// The search ended in crate mode: the manifest of the workspace in
/// `workspace_dir` is used, and the crate directory is searched.
pub open spec fn in_crate_mode(a: ResolveAction, workspace_dir: Seq<char>, crate_dir: Seq<char>) -> bool {
    a matches ResolveAction::Done(Ok(r)) && r.is_crate_mode && r.manifest_path@ == join_path(
        workspace_dir,
        manifest_file_name(),
    ) && r.search_root@ == crate_dir
}

/// The search ended with the given manifest and its directory, outside any workspace.
pub open spec fn is_standalone(a: ResolveAction, canonical: Seq<char>, crate_dir: Seq<char>) -> bool {
    a matches ResolveAction::Done(Ok(r)) && r.manifest_path@ == canonical && r.search_root@ == crate_dir
        && !r.is_crate_mode
}

/// Whether some pattern matches `crate_dir` given its canonical form.
pub open spec fn workspace_root_contains_spec(
    patterns: Seq<Seq<char>>,
    canonical: Seq<Option<String>>,
    crate_dir: Seq<char>,
    workspace_dir: Seq<char>,
) -> bool {
    exists|i: int|
        0 <= i < patterns.len() && member_matches(#[trigger] patterns[i], opt_text(canonical[i]), crate_dir, workspace_dir)
}

} // verus!

verus! {

/// A member glob `prefix*suffix` (the first `*` splits it) matches exactly
/// the inputs that are the prefix, then a text without `/`, then the
/// suffix; a glob without `*` matches only itself.
pub proof fn lemma_star_match_shape(prefix: Seq<char>, suffix: Seq<char>, input: Seq<char>)
    requires
        !contains_char(prefix, '*'),
    ensures
        single_star_match(prefix + seq!['*'] + suffix, input) <==> exists|middle: Seq<char>|
            #![trigger prefix + middle + suffix]
            prefix + middle + suffix == input && !contains_char(middle, '/'),
        single_star_match(prefix + seq!['*'] + suffix, input) ==> suffix.is_suffix_of(input) && prefix.is_prefix_of(input),
        single_star_match(prefix, input) <==> prefix == input,
{
    let pattern = prefix + seq!['*'] + suffix;
    lemma_index_of_char(prefix, '*');
    if single_star_match(pattern, input) {
        lemma_star_stays_in_segment(prefix, suffix, seq![]);
        lemma_index_of_char(pattern, '*');
        assert forall|j: int| 0 <= j < prefix.len() implies pattern[j] != '*' by {
            assert(pattern[j] == prefix[j]);
        }
        lemma_index_of_char_at(pattern, '*', prefix.len() as int);
        assert(pattern.subrange(0, prefix.len() as int) =~= prefix);
        assert(pattern.subrange(prefix.len() as int + 1, pattern.len() as int) =~= suffix);
        let middle = input.subrange(prefix.len() as int, input.len() - suffix.len());
        assert(input.subrange(0, prefix.len() as int) =~= prefix);
        assert(input.subrange(input.len() - suffix.len(), input.len() as int) =~= suffix);
        assert(prefix + middle + suffix =~= input);
    }
    if exists|middle: Seq<char>| #![trigger prefix + middle + suffix] prefix + middle + suffix == input && !contains_char(middle, '/') {
        let middle = choose|middle: Seq<char>| #![trigger prefix + middle + suffix] prefix + middle + suffix == input
            && !contains_char(middle, '/');
        lemma_star_stays_in_segment(prefix, suffix, middle);
    }
}

} // verus!
