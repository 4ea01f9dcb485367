//! The parts of a `Cargo.toml` manifest that the tool reads, and the
//! queries it makes of them.

use vstd::prelude::*;
use crate::metadata::clone_opt;
use crate::paths::{join, join_path, texts};

verus! {

/// The `[package]` section, as far as the tool reads it.
pub struct PackageInfo {
    pub name: String,
    pub version: String,
    pub description: Option<String>,
    pub authors: Vec<String>,
    pub license: Option<String>,
    pub repository: Option<String>,
    /// The README path that the manifest declares, if any.
    pub readme: Option<String>,
}

/// The table form of a dependency: `{ path = "..", optional = .. }`.
pub struct DependencyDetail {
    pub path: Option<String>,
    pub optional: bool,
}

/// One entry of `[dependencies]`; `detail` is `None` for the plain version
/// form and for an entry inherited from the workspace.
pub struct DependencyInfo {
    pub name: String,
    pub detail: Option<DependencyDetail>,
}

/// A parsed manifest.
pub struct ManifestInfo {
    pub package: Option<PackageInfo>,
    /// The `members` of the `[workspace]` section, `None` when there is no such section.
    pub workspace_members: Option<Vec<String>>,
    /// The entries of `[dependencies]`, in the manifest's key order.
    pub dependencies: Vec<DependencyInfo>,
}

/// A dependency given by `path = ".."`, with the path resolved against the
/// manifest's directory.
pub struct PathDependency {
    pub name: String,
    pub path: String,
    pub optional: bool,
}

/// Why a manifest query failed.
#[derive(Debug)]
pub enum ManifestError {
    /// The manifest has no `[package]` section.
    NoPackage,
    /// The manifest path has no parent directory.
    NoParent,
    /// The manifest could not be read or parsed; the text says why.
    Unreadable(String),
}

/// The message of each failure of the manifest queries.
pub open spec fn manifest_error_text(e: ManifestError) -> Seq<char> {
    match e {
        ManifestError::NoPackage => "No [package] section found in Cargo.toml"@,
        ManifestError::NoParent => "Cargo.toml has no parent directory"@,
        ManifestError::Unreadable(m) => m@,
    }
}

impl ManifestError {
    /// The message that explains the failure.
    pub fn message(&self) -> (m: String)
        ensures
            m@ == manifest_error_text(*self),
    {
        match self {
            ManifestError::NoPackage => "No [package] section found in Cargo.toml".to_owned(),
            ManifestError::NoParent => "Cargo.toml has no parent directory".to_owned(),
            ManifestError::Unreadable(m) => m.clone(),
        }
    }
}

/// The `[package]` section, or [`ManifestError::NoPackage`].
pub fn get_package(manifest: &ManifestInfo) -> (r: Result<&PackageInfo, ManifestError>)
    ensures
        manifest.package is None <==> r is Err,
        r matches Err(e) ==> e is NoPackage,
        r matches Ok(p) ==> manifest.package == Some(*p),
{
    match &manifest.package {
        Some(p) => Ok(p),
        None => Err(ManifestError::NoPackage),
    }
}

/// Whether the manifest has a `[workspace]` section.
pub fn is_workspace_root(manifest: &ManifestInfo) -> (b: bool)
    ensures
        b == manifest.workspace_members is Some,
{
    manifest.workspace_members.is_some()
}

/// Whether a manifest, as parsing it turned out, is a workspace root; a
/// parse failure is passed on.
pub fn is_workspace_manifest(parsed: Result<ManifestInfo, ManifestError>) -> (r: Result<bool, ManifestError>)
    ensures
        parsed is Err <==> r is Err,
        r matches Ok(b) ==> (parsed matches Ok(m) && b == m.workspace_members is Some),
{
    match parsed {
        Ok(manifest) => Ok(is_workspace_root(&manifest)),
        Err(e) => Err(e),
    }
}

/// The workspace members, empty when there is no `[workspace]` section.
pub fn get_workspace_members(manifest: &ManifestInfo) -> (r: Vec<String>)
    ensures
        texts(r@) == match manifest.workspace_members {
            Some(m) => texts(m@),
            None => Seq::empty(),
        },
{
    match &manifest.workspace_members {
        Some(m) => {
            let r = m.clone();
            assert(texts(r@) =~= texts(m@));
            r
        },
        None => {
            let r: Vec<String> = Vec::new();
            assert(texts(r@) =~= Seq::empty());
            r
        },
    }
}

/// `(name, resolved path, optional)` of the path dependencies in `deps`, in order.
pub open spec fn path_dependencies(deps: Seq<DependencyInfo>, dir: Seq<char>) -> Seq<(Seq<char>, Seq<char>, bool)>
    decreases deps.len(),
{
    if deps.len() == 0 {
        Seq::empty()
    } else {
        let rest = path_dependencies(deps.drop_last(), dir);
        let d = deps.last();
        match d.detail {
            Some(detail) => match detail.path {
                Some(p) => rest.push((d.name@, join_path(dir, p@), detail.optional)),
                None => rest,
            },
            None => rest,
        }
    }
}

/// `(name, path, optional)` of each entry.
pub open spec fn path_dependency_views(deps: Seq<PathDependency>) -> Seq<(Seq<char>, Seq<char>, bool)> {
    deps.map_values(|d: PathDependency| (d.name@, d.path@, d.optional))
}

/// The dependencies given by a `path`, each path joined onto `manifest_dir`.
pub fn collect_path_dependencies(manifest: &ManifestInfo, manifest_dir: &str) -> (r: Result<Vec<PathDependency>, ManifestError>)
    ensures
        r matches Ok(v) && path_dependency_views(v@) == path_dependencies(manifest.dependencies@, manifest_dir@),
{
    let mut deps: Vec<PathDependency> = Vec::new();
    let mut i: usize = 0;
    let ghost all = manifest.dependencies@;
    while i < manifest.dependencies.len()
        invariant
            all == manifest.dependencies@,
            i <= all.len(),
            path_dependency_views(deps@) == path_dependencies(all.subrange(0, i as int), manifest_dir@),
        decreases all.len() - i,
    {
        let ghost next = all.subrange(0, i as int + 1);
        assert(next.drop_last() =~= all.subrange(0, i as int));
        let dep = &manifest.dependencies[i];
        if let Some(detail) = &dep.detail {
            if let Some(rel_path) = &detail.path {
                let ghost before = deps@;
                deps.push(PathDependency {
                    name: dep.name.clone(),
                    path: join(manifest_dir, rel_path.as_str()),
                    optional: detail.optional,
                });
                assert(path_dependency_views(deps@) =~= path_dependency_views(before).push(
                    (dep.name@, join_path(manifest_dir@, rel_path@), detail.optional),
                ));
            }
        }
        i = i + 1;
    }
    assert(all.subrange(0, i as int) =~= all);
    Ok(deps)
}

/// The package name, or [`ManifestError::NoPackage`].
pub fn get_package_name(manifest: &ManifestInfo) -> (r: Result<String, ManifestError>)
    ensures
        manifest.package is None <==> r is Err,
        r matches Err(e) ==> e is NoPackage,
        r matches Ok(s) ==> s@ == manifest.package->Some_0.name@,
{
    let package = get_package(manifest)?;
    Ok(package.name.clone())
}

/// The package version, or [`ManifestError::NoPackage`].
pub fn get_package_version(manifest: &ManifestInfo) -> (r: Result<String, ManifestError>)
    ensures
        manifest.package is None <==> r is Err,
        r matches Err(e) ==> e is NoPackage,
        r matches Ok(s) ==> s@ == manifest.package->Some_0.version@,
{
    let package = get_package(manifest)?;
    Ok(package.version.clone())
}

/// The package description, if there is a package and it has one.
pub fn get_package_description(manifest: &ManifestInfo) -> (r: Option<String>)
    ensures
        crate::metadata::opt_text(r) == match manifest.package {
            Some(p) => crate::metadata::opt_text(p.description),
            None => None,
        },
{
    match &manifest.package {
        Some(p) => clone_opt(&p.description),
        None => None,
    }
}

/// The package authors, empty when there is no package.
pub fn get_package_authors(manifest: &ManifestInfo) -> (r: Vec<String>)
    ensures
        texts(r@) == match manifest.package {
            Some(p) => texts(p.authors@),
            None => Seq::empty(),
        },
{
    match &manifest.package {
        Some(p) => {
            let r = p.authors.clone();
            assert(texts(r@) =~= texts(p.authors@));
            r
        },
        None => {
            let r: Vec<String> = Vec::new();
            assert(texts(r@) =~= Seq::empty());
            r
        },
    }
}

/// The package license, if there is a package and it has one.
pub fn get_package_license(manifest: &ManifestInfo) -> (r: Option<String>)
    ensures
        crate::metadata::opt_text(r) == match manifest.package {
            Some(p) => crate::metadata::opt_text(p.license),
            None => None,
        },
{
    match &manifest.package {
        Some(p) => clone_opt(&p.license),
        None => None,
    }
}

/// The package repository, if there is a package and it has one.
pub fn get_package_repository(manifest: &ManifestInfo) -> (r: Option<String>)
    ensures
        crate::metadata::opt_text(r) == match manifest.package {
            Some(p) => crate::metadata::opt_text(p.repository),
            None => None,
        },
{
    match &manifest.package {
        Some(p) => clone_opt(&p.repository),
        None => None,
    }
}

} // verus!

verus! {

/// What the caller of a dependency walk must do next.
#[derive(Debug)]
pub enum WalkAction {
    /// Parse the manifest at this path and answer with [`WalkEvent::ManifestLoaded`].
    LoadManifest(String),
    /// Say whether a file exists at this path, with [`WalkEvent::Exists`].
    CheckExists(String),
    /// The walk is over: the dependency directories found, or the error that stopped it.
    Done(Result<Vec<String>, ManifestError>),
}

/// The caller's answer to a [`WalkAction`].
pub enum WalkEvent {
    ManifestLoaded(Result<ManifestInfo, ManifestError>),
    Exists(bool),
}

/// The state of a depth-first walk over path dependencies: each dependency
/// directory is reported once, the first time it is met (paths that differ
/// only by `..` count as one directory), and a dependency that has its own
/// `Cargo.toml` is walked in turn before the next one.
pub struct DependencyWalk {
    frames: Vec<(Vec<PathDependency>, usize)>,
    visited: Vec<String>,
    result: Vec<String>,
    pending_dir: Option<String>,
    pending_manifest: Option<String>,
    finished: bool,
    initial: Ghost<Seq<Seq<char>>>,
}

/// The paths of `deps`, in order.
pub open spec fn dep_paths(deps: Seq<PathDependency>) -> Seq<Seq<char>> {
    deps.map_values(|d: PathDependency| d.path@)
}

/// Every frame's position lies within its dependency list.
pub open spec fn frames_in_bounds(frames: Seq<(Vec<PathDependency>, usize)>) -> bool {
    forall|i: int| #![trigger frames[i]] 0 <= i < frames.len() ==> frames[i].1 <= frames[i].0@.len()
}

/// The dependency paths still to look at, in the order the walk takes them:
/// the rest of the innermost open manifest first, then those of the
/// manifests that enclose it.
pub open spec fn upcoming_of(frames: Seq<(Vec<PathDependency>, usize)>) -> Seq<Seq<char>>
    decreases frames.len(),
{
    if frames.len() == 0 {
        Seq::empty()
    } else {
        let f = frames.last();
        dep_paths(f.0@).subrange(f.1 as int, f.0@.len() as int) + upcoming_of(frames.drop_last())
    }
}

/// Dependencies still to look at in the open manifests, plus one per open manifest.
pub open spec fn remaining_work(frames: Seq<(Vec<PathDependency>, usize)>) -> nat
    decreases frames.len(),
{
    if frames.len() == 0 {
        0
    } else {
        remaining_work(frames.drop_last()) + (if frames.last().1 <= frames.last().0@.len() {
            (frames.last().0@.len() - frames.last().1) as nat
        } else {
            0nat
        }) + 1
    }
}

/// Whether some entry of `visited` names the same directory as `p`, once
/// `..` is resolved.
pub open spec fn visited_in(visited: Seq<Seq<char>>, p: Seq<char>) -> bool {
    exists|j: int| 0 <= j < visited.len() && crate::paths::same_dir(#[trigger] visited[j], p)
}

/// Position of the first entry of `up` that names no path of `visited`, or
/// the length of `up` when there is none.
pub open spec fn first_unvisited(up: Seq<Seq<char>>, visited: Seq<Seq<char>>) -> nat
    decreases up.len(),
{
    if up.len() == 0 {
        0
    } else if !visited_in(visited, up[0]) {
        0
    } else {
        1 + first_unvisited(up.drop_first(), visited)
    }
}

/// No entry names the same directory as an earlier one, once `..` is resolved.
pub open spec fn no_repeated_path(s: Seq<Seq<char>>) -> bool {
    forall|i: int, j: int| 0 <= i < j < s.len() ==> !crate::paths::same_dir(#[trigger] s[i], #[trigger] s[j])
}

/// `Cargo.toml` inside `dir`.
pub open spec fn manifest_in(dir: Seq<char>) -> Seq<char> {
    join_path(dir, "Cargo.toml"@)
}

proof fn lemma_first_unvisited_bound(up: Seq<Seq<char>>, visited: Seq<Seq<char>>)
    ensures
        first_unvisited(up, visited) <= up.len(),
        first_unvisited(up, visited) < up.len() ==> !visited_in(visited, up[first_unvisited(up, visited) as int]),
    decreases up.len(),
{
    if up.len() > 0 && visited_in(visited, up[0]) {
        lemma_first_unvisited_bound(up.drop_first(), visited);
    }
}

/// Taking the next dependency off the innermost frame.
proof fn lemma_upcoming_step(frames: Seq<(Vec<PathDependency>, usize)>)
    requires
        frames.len() > 0,
        frames.last().1 < frames.last().0@.len(),
    ensures
        upcoming_of(frames) == seq![frames.last().0@[frames.last().1 as int].path@] + upcoming_of(
            frames.drop_last().push((frames.last().0, (frames.last().1 + 1) as usize)),
        ),
{
    let f = frames.last();
    assert(f.0@.len() == f.0.len());
    let g = (f.0, (f.1 + 1) as usize);
    assert(g.1 == f.1 + 1);
    let next = frames.drop_last().push(g);
    assert(next.drop_last() =~= frames.drop_last());
    assert(next.last() == g);
    let d = dep_paths(f.0@);
    assert(d.subrange(f.1 as int, d.len() as int) =~= seq![d[f.1 as int]] + d.subrange(f.1 + 1, d.len() as int));
    assert(upcoming_of(next) == d.subrange(f.1 + 1, d.len() as int) + upcoming_of(frames.drop_last()));
    assert(upcoming_of(frames) == d.subrange(f.1 as int, d.len() as int) + upcoming_of(frames.drop_last()));
    assert(upcoming_of(frames) =~= seq![d[f.1 as int]] + upcoming_of(next));
}

/// A finished frame adds nothing.
proof fn lemma_upcoming_finished(frames: Seq<(Vec<PathDependency>, usize)>)
    requires
        frames.len() > 0,
        frames.last().1 == frames.last().0@.len(),
    ensures
        upcoming_of(frames) == upcoming_of(frames.drop_last()),
{
    let f = frames.last();
    assert(dep_paths(f.0@).subrange(f.1 as int, f.0@.len() as int) =~= Seq::<Seq<char>>::empty());
    assert(upcoming_of(frames) =~= upcoming_of(frames.drop_last()));
}

/// A new frame at position zero puts all its paths first.
proof fn lemma_upcoming_push(frames: Seq<(Vec<PathDependency>, usize)>, deps: Vec<PathDependency>)
    ensures
        upcoming_of(frames.push((deps, 0usize))) == dep_paths(deps@) + upcoming_of(frames),
{
    let next = frames.push((deps, 0usize));
    assert(next.drop_last() =~= frames);
    assert(dep_paths(deps@).subrange(0, deps@.len() as int) =~= dep_paths(deps@));
}

/// The resolved paths of a manifest's path dependencies.
proof fn lemma_dep_paths_of(v: Seq<PathDependency>, deps: Seq<DependencyInfo>, dir: Seq<char>)
    requires
        path_dependency_views(v) == path_dependencies(deps, dir),
    ensures
        dep_paths(v) == path_dependencies(deps, dir).map_values(|t: (Seq<char>, Seq<char>, bool)| t.1),
{
    assert(dep_paths(v) =~= path_dependencies(deps, dir).map_values(|t: (Seq<char>, Seq<char>, bool)| t.1)) by {
        assert forall|i: int| 0 <= i < v.len() implies dep_paths(v)[i] == path_dependencies(deps, dir).map_values(
            |t: (Seq<char>, Seq<char>, bool)| t.1,
        )[i] by {
            assert(path_dependency_views(v)[i] == (v[i].name@, v[i].path@, v[i].optional));
        }
    }
}

impl DependencyWalk {
    /// The directories handed in as already visited.
    pub closed spec fn initial(&self) -> Seq<Seq<char>> {
        self.initial@
    }

    /// The dependency directories found so far, in the order found.
    pub closed spec fn found(&self) -> Seq<Seq<char>> {
        texts(self.result@)
    }

    /// Every directory visited: the initial ones, then the ones found.
    pub closed spec fn visited_paths(&self) -> Seq<Seq<char>> {
        texts(self.visited@)
    }

    /// The dependency paths of the open manifests still to look at, in order.
    pub closed spec fn upcoming(&self) -> Seq<Seq<char>> {
        upcoming_of(self.frames@)
    }

    /// The directory of the manifest the walk waits for.
    pub closed spec fn manifest_dir(&self) -> Seq<char> {
        self.pending_dir->Some_0@
    }

    /// The manifest path whose existence the walk asked about.
    pub closed spec fn pending_manifest_path(&self) -> Seq<char> {
        self.pending_manifest->Some_0@
    }

    /// Whether the walk waits for a parsed manifest.
    pub closed spec fn awaits_manifest(&self) -> bool {
        !self.finished && self.pending_dir is Some
    }

    /// Whether the walk waits for an existence check.
    pub closed spec fn awaits_exists(&self) -> bool {
        !self.finished && self.pending_dir is None && self.pending_manifest is Some
    }

    /// Whether the walk is over.
    pub closed spec fn is_finished(&self) -> bool {
        self.finished
    }

    /// The walk's invariant: the visited directories are the initial ones
    /// followed by the found ones, a found directory is none that was visited
    /// before it, and every open manifest's position is in range.
    pub closed spec fn inv(&self) -> bool {
        &&& texts(self.visited@) == self.initial@ + texts(self.result@)
        &&& forall|i: int, j: int|
            0 <= i < j < self.visited@.len() && j >= self.initial@.len() ==> !crate::paths::same_dir(
                #[trigger] self.visited@[i]@,
                #[trigger] self.visited@[j]@,
            )
        &&& self.pending_dir is Some ==> self.pending_manifest is None
        &&& frames_in_bounds(self.frames@)
    }

    /// Each dependency directory is reported once: no found directory names
    /// the same directory as another found one, nor as one visited before the
    /// walk, with `..` resolved.
    pub proof fn lemma_found_once(&self)
        requires
            self.inv(),
        ensures
            no_repeated_path(self.found()),
            forall|i: int, j: int|
                0 <= i < self.initial().len() && 0 <= j < self.found().len() ==> !crate::paths::same_dir(
                    #[trigger] self.initial()[i],
                    #[trigger] self.found()[j],
                ),
    {
        let n = self.initial@.len();
        let v = texts(self.visited@);
        assert(v.len() == self.visited@.len());
        assert forall|i: int, j: int| 0 <= i < j < self.found().len() implies !crate::paths::same_dir(
            #[trigger] self.found()[i],
            #[trigger] self.found()[j],
        ) by {
            assert(v[n + i] == self.found()[i]);
            assert(v[n + j] == self.found()[j]);
            assert(v[n + i] == self.visited@[n + i]@);
            assert(v[n + j] == self.visited@[n + j]@);
        }
        assert forall|i: int, j: int| 0 <= i < self.initial().len() && 0 <= j < self.found().len() implies !crate::paths::same_dir(
            #[trigger] self.initial()[i],
            #[trigger] self.found()[j],
        ) by {
            assert(v[i] == self.initial()[i]);
            assert(v[n + j] == self.found()[j]);
            assert(v[i] == self.visited@[i]@);
            assert(v[n + j] == self.visited@[n + j]@);
        }
    }

    /// The visited directories, handed back: the ones given at the start,
    /// then exactly the ones found, in order.
    pub fn into_visited(self) -> (v: Vec<String>)
        requires
            self.inv(),
        ensures
            texts(v@) == self.initial() + self.found(),
    {
        self.visited
    }

    /// Starts a walk from the manifest at `manifest_path`, with `visited`
    /// already visited: the first action loads that manifest, or the walk
    /// ends at once when the path has no parent directory.
    pub fn start(manifest_path: &str, visited: Vec<String>) -> (r: (DependencyWalk, WalkAction))
        ensures
            r.0.inv(),
            r.0.initial() == texts(visited@),
            r.0.found() == Seq::<Seq<char>>::empty(),
            r.0.upcoming() == Seq::<Seq<char>>::empty(),
            r.1 is Done <==> r.0.is_finished(),
            match crate::paths::parent_of_path(manifest_path@) {
                None => r.1 matches WalkAction::Done(Err(e)) && e is NoParent,
                Some(d) => r.0.awaits_manifest() && r.0.manifest_dir() == d && (r.1 matches WalkAction::LoadManifest(p)
                    && p@ == manifest_path@),
            },
    {
        let ghost init = texts(visited@);
        let dir = crate::paths::parent(manifest_path);
        let finished = dir.is_none();
        let walk = DependencyWalk {
            frames: Vec::new(),
            visited,
            result: Vec::new(),
            pending_dir: dir,
            pending_manifest: None,
            finished,
            initial: Ghost(init),
        };
        assert(texts(walk.result@) =~= Seq::<Seq<char>>::empty());
        assert(texts(walk.visited@) =~= init + texts(walk.result@));
        if finished {
            (walk, WalkAction::Done(Err(ManifestError::NoParent)))
        } else {
            (walk, WalkAction::LoadManifest(manifest_path.to_owned()))
        }
    }

    /// Whether `path` names a directory already visited, once `..` is resolved.
    fn is_visited(&self, path: &str) -> (b: bool)
        ensures
            b == visited_in(texts(self.visited@), path@),
    {
        let ghost v = texts(self.visited@);
        let mut i: usize = 0;
        while i < self.visited.len()
            invariant
                v == texts(self.visited@),
                i <= self.visited@.len(),
                forall|k: int| 0 <= k < i ==> !crate::paths::same_dir(#[trigger] v[k], path@),
            decreases self.visited@.len() - i,
        {
            assert(v[i as int] == self.visited@[i as int]@);
            if crate::paths::paths_same_dir(self.visited[i].as_str(), path) {
                return true;
            }
            i = i + 1;
        }
        false
    }

    /// Moves to the next dependency not yet visited, across the open
    /// manifests; asks whether it has a manifest, or ends the walk.
    fn advance(&mut self) -> (a: WalkAction)
        requires
            old(self).inv(),
            !old(self).finished,
            old(self).pending_dir is None,
        ensures
            final(self).inv(),
            final(self).initial() == old(self).initial(),
            a is Done <==> final(self).is_finished(),
            walked_on(old(self).found(), old(self).upcoming(), old(self).visited_paths(), a, *final(self)),
    {
        let ghost up0 = upcoming_of(self.frames@);
        let ghost vis = texts(self.visited@);
        let ghost mut consumed: int = 0;
        proof {
            lemma_first_unvisited_bound(up0, vis);
            assert(up0.subrange(0, up0.len() as int) =~= up0);
        }
        loop
            invariant
                self.inv(),
                !self.finished,
                self.pending_dir is None,
                self.initial@ == old(self).initial@,
                self.visited@ == old(self).visited@,
                self.result@ == old(self).result@,
                up0 == old(self).upcoming(),
                vis == old(self).visited_paths(),
                0 <= consumed <= up0.len(),
                upcoming_of(self.frames@) == up0.subrange(consumed, up0.len() as int),
                first_unvisited(up0, vis) == consumed + first_unvisited(upcoming_of(self.frames@), vis),
            decreases remaining_work(self.frames@),
        {
            let nf = self.frames.len();
            if nf == 0 {
                self.finished = true;
                let v = self.result.clone();
                assert(texts(v@) =~= texts(self.result@));
                assert(consumed == up0.len()) by {
                    assert(up0.subrange(consumed, up0.len() as int).len() == 0);
                }
                return WalkAction::Done(Ok(v));
            }
            let ghost frames0 = self.frames@;
            let (deps, idx) = self.frames.pop().unwrap();
            assert(frames0.drop_last() =~= self.frames@);
            assert(frames0[frames0.len() - 1] == (deps, idx));
            if idx < deps.len() {
                proof {
                    lemma_upcoming_step(frames0);
                }
                let dep_path = deps[idx].path.clone();
                self.frames.push((deps, idx + 1));
                assert(self.frames@.drop_last() =~= frames0.drop_last());
                assert(self.frames@ =~= frames0.drop_last().push((frames0.last().0, (frames0.last().1 + 1) as usize)));
                let ghost cur = upcoming_of(frames0);
                assert(cur[0] == dep_path@) by {
                    assert(dep_paths(deps@)[idx as int] == deps@[idx as int].path@);
                }
                assert(upcoming_of(self.frames@) =~= cur.drop_first());
                assert(cur[0] == up0[consumed]);
                if !self.is_visited(dep_path.as_str()) {
                    let ghost v0 = self.visited@;
                    let ghost r0 = self.result@;
                    self.visited.push(dep_path.clone());
                    self.result.push(dep_path.clone());
                    proof {
                        assert(texts(self.visited@) =~= texts(v0).push(dep_path@));
                        assert(texts(self.result@) =~= texts(r0).push(dep_path@));
                        assert(texts(self.visited@) =~= self.initial@ + texts(self.result@));
                        assert forall|i: int, j: int|
                            0 <= i < j < self.visited@.len() && j >= self.initial@.len() implies !crate::paths::same_dir(
                                #[trigger] self.visited@[i]@,
                                #[trigger] self.visited@[j]@,
                            ) by {
                            if j < v0.len() {
                                assert(self.visited@[i] == v0[i] && self.visited@[j] == v0[j]);
                            } else {
                                assert(self.visited@[i] == v0[i]);
                                assert(self.visited@[j] == dep_path);
                                assert(texts(v0)[i] == v0[i]@);
                            }
                        }
                        assert(first_unvisited(cur, vis) == 0);
                        assert(up0.subrange(consumed + 1, up0.len() as int) =~= cur.drop_first());
                    }
                    let manifest = join(dep_path.as_str(), "Cargo.toml");
                    self.pending_manifest = Some(manifest);
                    return WalkAction::CheckExists(self.pending_manifest.clone().unwrap());
                }
                proof {
                    assert(first_unvisited(cur, vis) == 1 + first_unvisited(cur.drop_first(), vis));
                    assert(up0.subrange(consumed + 1, up0.len() as int) =~= cur.drop_first());
                    consumed = consumed + 1;
                }
            } else {
                proof {
                    lemma_upcoming_finished(frames0);
                }
            }
        }
    }
}

/// After a step that moves to the next unvisited dependency of `up`, with
/// `found` found before and `visited` visited before: either there is none
/// and the walk is over with `found`, or that dependency is found, the ones
/// before it are passed over, and the walk asks whether it has a manifest.
pub open spec fn walked_on(
    found: Seq<Seq<char>>,
    up: Seq<Seq<char>>,
    visited: Seq<Seq<char>>,
    a: WalkAction,
    after: DependencyWalk,
) -> bool {
    let k = first_unvisited(up, visited);
    if k >= up.len() {
        after.is_finished() && after.found() == found && (a matches WalkAction::Done(Ok(v)) && texts(v@) == found)
    } else {
        &&& after.awaits_exists()
        &&& after.found() == found.push(up[k as int])
        &&& after.upcoming() == up.subrange(k as int + 1, up.len() as int)
        &&& after.pending_manifest_path() == manifest_in(up[k as int])
        &&& (a matches WalkAction::CheckExists(p) && p@ == manifest_in(up[k as int]))
    }
}

/// One step of the walk that collects every path dependency, recursively:
/// takes the caller's answer to the last action and returns the next
/// action. A loaded manifest puts its path dependencies first among those
/// still to look at; a dependency with a `Cargo.toml` has it loaded next;
/// a manifest that cannot be loaded, or a manifest path without a parent,
/// ends the walk with that error.
pub fn collect_all_path_dependencies(walk: &mut DependencyWalk, event: WalkEvent) -> (a: WalkAction)
    requires
        old(walk).inv(),
        event is ManifestLoaded ==> old(walk).awaits_manifest(),
        event is Exists ==> old(walk).awaits_exists(),
    ensures
        final(walk).inv(),
        final(walk).initial() == old(walk).initial(),
        a is Done <==> final(walk).is_finished(),
        match event {
            WalkEvent::ManifestLoaded(Err(e)) => a == WalkAction::Done(Err(e)) && final(walk).found() == old(walk).found(),
            WalkEvent::ManifestLoaded(Ok(m)) => walked_on(
                old(walk).found(),
                path_dependencies(m.dependencies@, old(walk).manifest_dir()).map_values(
                    |t: (Seq<char>, Seq<char>, bool)| t.1,
                ) + old(walk).upcoming(),
                old(walk).visited_paths(),
                a,
                *final(walk),
            ),
            WalkEvent::Exists(true) => final(walk).found() == old(walk).found() && match crate::paths::parent_of_path(
                old(walk).pending_manifest_path(),
            ) {
                None => a matches WalkAction::Done(Err(e)) && e is NoParent,
                Some(d) => final(walk).awaits_manifest() && final(walk).manifest_dir() == d && final(walk).upcoming()
                    == old(walk).upcoming() && (a matches WalkAction::LoadManifest(p) && p@ == old(walk).pending_manifest_path()),
            },
            WalkEvent::Exists(false) => walked_on(old(walk).found(), old(walk).upcoming(), old(walk).visited_paths(), a, *final(walk)),
        },
{
    match event {
        WalkEvent::ManifestLoaded(Err(e)) => {
            walk.finished = true;
            WalkAction::Done(Err(e))
        },
        WalkEvent::ManifestLoaded(Ok(manifest)) => {
            let dir = walk.pending_dir.take().unwrap();
            let deps = match collect_path_dependencies(&manifest, dir.as_str()) {
                Ok(d) => d,
                Err(e) => {
                    walk.finished = true;
                    return WalkAction::Done(Err(e));
                },
            };
            proof {
                lemma_dep_paths_of(deps@, manifest.dependencies@, dir@);
                lemma_upcoming_push(walk.frames@, deps);
            }
            let ghost f0 = walk.frames@;
            walk.frames.push((deps, 0));
            assert(walk.frames@ == f0.push((deps, 0usize)));
            assert(frames_in_bounds(walk.frames@)) by {
                assert forall|i: int| #![trigger walk.frames@[i]] 0 <= i < walk.frames@.len() implies walk.frames@[i].1
                    <= walk.frames@[i].0@.len() by {
                    if i < f0.len() {
                        assert(walk.frames@[i] == f0[i]);
                    }
                }
            }
            walk.advance()
        },
        WalkEvent::Exists(true) => {
            let manifest = walk.pending_manifest.take().unwrap();
            match crate::paths::parent(manifest.as_str()) {
                Some(dir) => {
                    walk.pending_dir = Some(dir);
                    WalkAction::LoadManifest(manifest)
                },
                None => {
                    walk.finished = true;
                    WalkAction::Done(Err(ManifestError::NoParent))
                },
            }
        },
        WalkEvent::Exists(false) => {
            walk.pending_manifest = None;
            walk.advance()
        },
    }
}

} // verus!

verus! {

/// The state of the dependency walk of the fusing command: every path
/// dependency is reported each time it is met, and one that has a readable
/// manifest of its own is walked in turn before the next.
pub struct WorkspaceDependencyWalk {
    frames: Vec<(Vec<PathDependency>, usize)>,
    result: Vec<String>,
    recurse: bool,
    pending_manifest: Option<String>,
    awaiting_manifest: bool,
    finished: bool,
}

impl WorkspaceDependencyWalk {
    /// The dependency directories reported so far, in order.
    pub closed spec fn found(&self) -> Seq<Seq<char>> {
        texts(self.result@)
    }

    /// The dependency paths of the open manifests still to report, in order.
    pub closed spec fn upcoming(&self) -> Seq<Seq<char>> {
        upcoming_of(self.frames@)
    }

    /// The manifest path of the last reported dependency.
    pub closed spec fn pending_manifest_path(&self) -> Seq<char> {
        self.pending_manifest->Some_0@
    }

    /// Whether dependencies with a manifest are walked in turn.
    pub closed spec fn recursive(&self) -> bool {
        self.recurse
    }

    /// Whether the walk waits for an existence check.
    pub closed spec fn awaits_exists(&self) -> bool {
        !self.finished && !self.awaiting_manifest && self.pending_manifest is Some
    }

    /// Whether the walk waits for a parsed manifest.
    pub closed spec fn awaits_manifest(&self) -> bool {
        !self.finished && self.awaiting_manifest && self.pending_manifest is Some
    }

    /// Whether the walk is over.
    pub closed spec fn is_finished(&self) -> bool {
        self.finished
    }

    /// The walk's invariant: every open manifest's position is in range.
    pub closed spec fn inv(&self) -> bool {
        frames_in_bounds(self.frames@)
    }

    /// Reports the next dependency of the open manifests and asks whether it
    /// has a manifest, or ends the walk when there is none.
    fn advance(&mut self) -> (a: WalkAction)
        requires
            old(self).inv(),
            !old(self).finished,
        ensures
            final(self).inv(),
            final(self).recurse == old(self).recurse,
            a is Done <==> final(self).is_finished(),
            reported_next(old(self).found(), old(self).upcoming(), a, *final(self)),
    {
        let ghost up0 = upcoming_of(self.frames@);
        loop
            invariant
                self.inv(),
                !self.finished,
                self.recurse == old(self).recurse,
                self.result@ == old(self).result@,
                up0 == old(self).upcoming(),
                upcoming_of(self.frames@) == up0,
            decreases remaining_work(self.frames@),
        {
            let nf = self.frames.len();
            if nf == 0 {
                self.finished = true;
                let v = self.result.clone();
                assert(texts(v@) =~= texts(self.result@));
                return WalkAction::Done(Ok(v));
            }
            let ghost frames0 = self.frames@;
            let (deps, idx) = self.frames.pop().unwrap();
            assert(frames0.drop_last() =~= self.frames@);
            assert(frames0[frames0.len() - 1] == (deps, idx));
            if idx < deps.len() {
                proof {
                    lemma_upcoming_step(frames0);
                }
                let dep_path = deps[idx].path.clone();
                self.frames.push((deps, idx + 1));
                assert(self.frames@ =~= frames0.drop_last().push((frames0.last().0, (frames0.last().1 + 1) as usize)));
                assert(up0[0] == dep_path@) by {
                    assert(dep_paths(deps@)[idx as int] == deps@[idx as int].path@);
                }
                assert(upcoming_of(self.frames@) =~= up0.drop_first());
                let ghost r0 = self.result@;
                self.result.push(dep_path.clone());
                assert(texts(self.result@) =~= texts(r0).push(dep_path@));
                let manifest = join(dep_path.as_str(), "Cargo.toml");
                self.pending_manifest = Some(manifest);
                self.awaiting_manifest = false;
                return WalkAction::CheckExists(self.pending_manifest.clone().unwrap());
            } else {
                proof {
                    lemma_upcoming_finished(frames0);
                }
            }
        }
    }

    /// Starts the walk over the path dependencies of `manifest`, read from
    /// `manifest_path`; `recurse` says whether dependencies with a manifest
    /// are walked in turn. Ends at once when the path has no parent directory.
    pub fn start(manifest: &ManifestInfo, manifest_path: &str, recurse: bool) -> (r: (WorkspaceDependencyWalk, WalkAction))
        ensures
            r.0.inv(),
            r.0.recursive() == recurse,
            r.1 is Done <==> r.0.is_finished(),
            match crate::paths::parent_of_path(manifest_path@) {
                None => r.1 matches WalkAction::Done(Err(e)) && e is NoParent,
                Some(d) => reported_next(
                    Seq::empty(),
                    path_dependencies(manifest.dependencies@, d).map_values(|t: (Seq<char>, Seq<char>, bool)| t.1),
                    r.1,
                    r.0,
                ),
            },
    {
        let mut walk = WorkspaceDependencyWalk {
            frames: Vec::new(),
            result: Vec::new(),
            recurse,
            pending_manifest: None,
            awaiting_manifest: false,
            finished: false,
        };
        let dir = match crate::paths::parent(manifest_path) {
            Some(d) => d,
            None => {
                walk.finished = true;
                return (walk, WalkAction::Done(Err(ManifestError::NoParent)));
            },
        };
        let deps = match collect_path_dependencies(manifest, dir.as_str()) {
            Ok(d) => d,
            Err(e) => {
                walk.finished = true;
                return (walk, WalkAction::Done(Err(e)));
            },
        };
        proof {
            lemma_dep_paths_of(deps@, manifest.dependencies@, dir@);
            lemma_upcoming_push(walk.frames@, deps);
        }
        let ghost f0 = walk.frames@;
        walk.frames.push((deps, 0));
        assert(walk.frames@ == f0.push((deps, 0usize)));
        assert(upcoming_of(f0) =~= Seq::<Seq<char>>::empty());
        assert(texts(walk.result@) =~= Seq::<Seq<char>>::empty());
        assert(frames_in_bounds(walk.frames@)) by {
            assert(walk.frames@.len() == 1 && walk.frames@[0] == (deps, 0usize));
        }
        let a = walk.advance();
        proof {
            assert(dep_paths(deps@) + Seq::<Seq<char>>::empty() =~= dep_paths(deps@));
        }
        (walk, a)
    }
}

/// After a step that reports the next dependency of `up`, with `found`
/// reported before: either there is none and the walk is over with `found`,
/// or the first one is reported and the walk asks whether it has a manifest.
pub open spec fn reported_next(found: Seq<Seq<char>>, up: Seq<Seq<char>>, a: WalkAction, after: WorkspaceDependencyWalk) -> bool {
    if up.len() == 0 {
        after.is_finished() && after.found() == found && (a matches WalkAction::Done(Ok(v)) && texts(v@) == found)
    } else {
        &&& after.awaits_exists()
        &&& after.found() == found.push(up[0])
        &&& after.upcoming() == up.drop_first()
        &&& after.pending_manifest_path() == manifest_in(up[0])
        &&& (a matches WalkAction::CheckExists(p) && p@ == manifest_in(up[0]))
    }
}

/// One step of the dependency walk of the fusing command: takes the
/// caller's answer to the last action and returns the next. A dependency
/// whose manifest exists is loaded next when the walk is recursive; a
/// loaded manifest puts its path dependencies first among those still to
/// report; a manifest that is missing, cannot be loaded or has no parent
/// directory only ends the look at that dependency.
pub fn collect_dependencies_with_workspace(walk: &mut WorkspaceDependencyWalk, event: WalkEvent) -> (a: WalkAction)
    requires
        old(walk).inv(),
        event is Exists ==> old(walk).awaits_exists(),
        event is ManifestLoaded ==> old(walk).awaits_manifest(),
    ensures
        final(walk).inv(),
        final(walk).recursive() == old(walk).recursive(),
        a is Done <==> final(walk).is_finished(),
        match event {
            WalkEvent::Exists(b) => if b && old(walk).recursive() {
                final(walk).awaits_manifest() && final(walk).found() == old(walk).found() && final(walk).upcoming()
                    == old(walk).upcoming() && final(walk).pending_manifest_path() == old(walk).pending_manifest_path()
                    && (a matches WalkAction::LoadManifest(p) && p@ == old(walk).pending_manifest_path())
            } else {
                reported_next(old(walk).found(), old(walk).upcoming(), a, *final(walk))
            },
            WalkEvent::ManifestLoaded(Err(_)) => reported_next(old(walk).found(), old(walk).upcoming(), a, *final(walk)),
            WalkEvent::ManifestLoaded(Ok(child)) => match crate::paths::parent_of_path(old(walk).pending_manifest_path()) {
                None => reported_next(old(walk).found(), old(walk).upcoming(), a, *final(walk)),
                Some(d) => reported_next(
                    old(walk).found(),
                    path_dependencies(child.dependencies@, d).map_values(|t: (Seq<char>, Seq<char>, bool)| t.1)
                        + old(walk).upcoming(),
                    a,
                    *final(walk),
                ),
            },
        },
{
    match event {
        WalkEvent::Exists(exists) => {
            if exists && walk.recurse {
                walk.awaiting_manifest = true;
                let m = walk.pending_manifest.clone().unwrap();
                WalkAction::LoadManifest(m)
            } else {
                walk.pending_manifest = None;
                walk.advance()
            }
        },
        WalkEvent::ManifestLoaded(Err(_)) => {
            walk.pending_manifest = None;
            walk.awaiting_manifest = false;
            walk.advance()
        },
        WalkEvent::ManifestLoaded(Ok(child)) => {
            let manifest_path = walk.pending_manifest.take().unwrap();
            walk.awaiting_manifest = false;
            if let Some(dir) = crate::paths::parent(manifest_path.as_str()) {
                if let Ok(deps) = collect_path_dependencies(&child, dir.as_str()) {
                    proof {
                        lemma_dep_paths_of(deps@, child.dependencies@, dir@);
                        lemma_upcoming_push(walk.frames@, deps);
                    }
                    let ghost f0 = walk.frames@;
                    walk.frames.push((deps, 0));
                    assert(walk.frames@ == f0.push((deps, 0usize)));
                    assert(frames_in_bounds(walk.frames@)) by {
                        assert forall|i: int| #![trigger walk.frames@[i]] 0 <= i < walk.frames@.len() implies walk.frames@[i].1
                            <= walk.frames@[i].0@.len() by {
                            if i < f0.len() {
                                assert(walk.frames@[i] == f0[i]);
                            }
                        }
                    }
                }
            }
            walk.advance()
        },
    }
}

} // verus!
