//! Project metadata placed at the top of the fused output.

use vstd::prelude::*;
use vstd::string::{StrSliceExecFns, StringExecFns};
use crate::manifest::{ManifestError, ManifestInfo};
use crate::paths::{join, join_path, parent, parent_of_path, texts};
use crate::text::{chars_of, line_ranges, lines_of, range_texts};

verus! {

/// The text of an optional string.
pub open spec fn opt_text(o: Option<String>) -> Option<Seq<char>> {
    match o {
        Some(s) => Some(s@),
        None => None,
    }
}

/// `items` joined with `sep` between neighbours.
pub open spec fn joined(items: Seq<Seq<char>>, sep: Seq<char>) -> Seq<char>
    decreases items.len(),
{
    if items.len() == 0 {
        Seq::empty()
    } else if items.len() == 1 {
        items[0]
    } else {
        joined(items.drop_last(), sep) + sep + items.last()
    }
}

/// Each line as `// <line>\n`, concatenated.
pub open spec fn commented_lines(lines: Seq<Seq<char>>) -> Seq<char>
    decreases lines.len(),
{
    if lines.len() == 0 {
        Seq::empty()
    } else {
        commented_lines(lines.drop_last()) + "// "@ + lines.last() + "\n"@
    }
}

/// `<label><value>\n` when there is a value, nothing otherwise.
pub open spec fn optional_line(label: Seq<char>, value: Option<Seq<char>>) -> Seq<char> {
    match value {
        Some(v) => label + v + "\n"@,
        None => Seq::empty(),
    }
}

/// Project data from the manifest, and the README text if one was found.
pub struct ProjectMetadata {
    name: String,
    version: String,
    description: Option<String>,
    readme: Option<String>,
    repository: Option<String>,
    authors: Vec<String>,
    license: Option<String>,
}

impl ProjectMetadata {
    /// The block of comment lines that introduces the output.
    pub closed spec fn rendered(&self) -> Seq<char> {
        "// Project: "@ + self.name@ + " (v"@ + self.version@ + ")\n"@ + optional_line(
            "// Description: "@,
            opt_text(self.description),
        ) + (if self.authors@.len() > 0 {
            "// Authors: "@ + joined(texts(self.authors@), ", "@) + "\n"@
        } else {
            Seq::empty()
        }) + optional_line("// License: "@, opt_text(self.license)) + optional_line(
            "// Repository: "@,
            opt_text(self.repository),
        ) + match self.readme {
            Some(r) => "\n// README\n// ======\n"@ + commented_lines(lines_of(r@))
                + "// ======\n\n"@,
            None => Seq::empty(),
        }
    }

    /// The rendered block for the given field values.
    pub open spec fn rendering_of(
        name: Seq<char>,
        version: Seq<char>,
        description: Option<Seq<char>>,
        readme: Option<Seq<char>>,
        repository: Option<Seq<char>>,
        authors: Seq<Seq<char>>,
        license: Option<Seq<char>>,
    ) -> Seq<char> {
        "// Project: "@ + name + " (v"@ + version + ")\n"@ + optional_line(
            "// Description: "@,
            description,
        ) + (if authors.len() > 0 {
            "// Authors: "@ + joined(authors, ", "@) + "\n"@
        } else {
            Seq::empty()
        }) + optional_line("// License: "@, license) + optional_line("// Repository: "@, repository)
            + match readme {
            Some(r) => "\n// README\n// ======\n"@ + commented_lines(lines_of(r)) + "// ======\n\n"@,
            None => Seq::empty(),
        }
    }

    /// Metadata from its parts.
    pub fn new(
        name: String,
        version: String,
        description: Option<String>,
        readme: Option<String>,
        repository: Option<String>,
        authors: Vec<String>,
        license: Option<String>,
    ) -> (m: Self)
        ensures
            m.rendered() == Self::rendering_of(
                name@,
                version@,
                opt_text(description),
                opt_text(readme),
                opt_text(repository),
                texts(authors@),
                opt_text(license),
            ),
    {
        ProjectMetadata { name, version, description, readme, repository, authors, license }
    }

    /// The block as text: project name and version, then the description,
    /// authors, license and repository lines that apply, then the README
    /// with each line commented out.
    pub fn render(&self) -> (s: String)
        ensures
            s@ == self.rendered(),
    {
        let mut out = String::new();
        out.append("// Project: ");
        out.append(self.name.as_str());
        out.append(" (v");
        out.append(self.version.as_str());
        out.append(")\n");
        let ghost head = out@;
        assert(head =~= "// Project: "@ + self.name@ + " (v"@ + self.version@ + ")\n"@);
        push_optional_line(&mut out, "// Description: ", &self.description);
        let ghost p1 = out@;
        if self.authors.len() > 0 {
            out.append("// Authors: ");
            push_joined(&mut out, &self.authors, ", ");
            out.append("\n");
        }
        let ghost p2 = out@;
        assert(p2 =~= p1 + (if self.authors@.len() > 0 {
            "// Authors: "@ + joined(texts(self.authors@), ", "@) + "\n"@
        } else {
            Seq::empty()
        }));
        push_optional_line(&mut out, "// License: ", &self.license);
        let ghost p3 = out@;
        push_optional_line(&mut out, "// Repository: ", &self.repository);
        let ghost p4 = out@;
        if let Some(readme) = &self.readme {
            out.append("\n// README\n// ======\n");
            push_commented_lines(&mut out, readme.as_str());
            out.append("// ======\n\n");
        }
        assert(out@ =~= p4 + match self.readme {
            Some(r) => "\n// README\n// ======\n"@ + commented_lines(lines_of(r@))
                + "// ======\n\n"@,
            None => Seq::empty(),
        });
        out
    }
}

/// Appends `<label><value>\n` when there is a value.
fn push_optional_line(out: &mut String, label: &str, value: &Option<String>)
    ensures
        final(out)@ == old(out)@ + optional_line(label@, opt_text(*value)),
{
    match value {
        Some(v) => {
            out.append(label);
            out.append(v.as_str());
            out.append("\n");
        },
        None => {
            assert(old(out)@ + optional_line(label@, opt_text(*value)) =~= old(out)@);
        },
    }
}

/// Appends `items` joined with `sep`.
fn push_joined(out: &mut String, items: &Vec<String>, sep: &str)
    ensures
        final(out)@ == old(out)@ + joined(texts(items@), sep@),
{
    let ghost t = texts(items@);
    let mut i: usize = 0;
    proof {
        assert(t.subrange(0, 0) =~= Seq::<Seq<char>>::empty());
        assert(out@ =~= old(out)@ + joined(t.subrange(0, 0), sep@));
    }
    while i < items.len()
        invariant
            t == texts(items@),
            i <= items@.len(),
            out@ == old(out)@ + joined(t.subrange(0, i as int), sep@),
        decreases items@.len() - i,
    {
        let ghost next = t.subrange(0, i as int + 1);
        assert(next.drop_last() =~= t.subrange(0, i as int));
        assert(next.last() == items@[i as int]@);
        if i > 0 {
            out.append(sep);
        } else {
            assert(next =~= seq![items@[0]@]);
        }
        out.append(items[i].as_str());
        i = i + 1;
    }
    assert(t.subrange(0, i as int) =~= t);
}

/// Appends every line of `text` as `// <line>\n`.
fn push_commented_lines(out: &mut String, text: &str)
    ensures
        final(out)@ == old(out)@ + commented_lines(lines_of(text@)),
{
    let chars = chars_of(text);
    let ranges = line_ranges(&chars);
    let ghost lines = lines_of(text@);
    let mut i: usize = 0;
    proof {
        assert(lines.subrange(0, 0) =~= Seq::<Seq<char>>::empty());
        assert(out@ =~= old(out)@ + commented_lines(lines.subrange(0, 0)));
    }
    while i < ranges.len()
        invariant
            chars@ == text@,
            lines == lines_of(text@),
            lines == range_texts(chars@, ranges@),
            crate::text::ranges_in_bounds(chars@, ranges@),
            i <= ranges@.len(),
            out@ == old(out)@ + commented_lines(lines.subrange(0, i as int)),
        decreases ranges@.len() - i,
    {
        let (a, b) = ranges[i];
        assert(ranges@[i as int].0 <= ranges@[i as int].1 <= chars@.len());
        let ghost next = lines.subrange(0, i as int + 1);
        assert(next.drop_last() =~= lines.subrange(0, i as int));
        assert(next.last() == chars@.subrange(a as int, b as int));
        out.append("// ");
        out.append(text.substring_char(a, b));
        out.append("\n");
        i = i + 1;
    }
    assert(lines.subrange(0, i as int) =~= lines);
}


impl ProjectMetadata {
    /// Metadata from the `[package]` section of `manifest` and the README
    /// text, if one was read; [`ManifestError::NoPackage`] without a package.
    pub fn from_manifest(manifest: &ManifestInfo, readme: Option<String>) -> (r: Result<Self, ManifestError>)
        ensures
            manifest.package is None <==> r is Err,
            r matches Err(e) ==> e is NoPackage,
            r matches Ok(m) ==> m.rendered() == Self::rendering_of(
                manifest.package->Some_0.name@,
                manifest.package->Some_0.version@,
                opt_text(manifest.package->Some_0.description),
                opt_text(readme),
                opt_text(manifest.package->Some_0.repository),
                texts(manifest.package->Some_0.authors@),
                opt_text(manifest.package->Some_0.license),
            ),
    {
        let package = match &manifest.package {
            Some(p) => p,
            None => return Err(ManifestError::NoPackage),
        };
        let authors = package.authors.clone();
        assert(texts(authors@) =~= texts(package.authors@));
        Ok(Self::new(
            package.name.clone(),
            package.version.clone(),
            clone_opt(&package.description),
            readme,
            clone_opt(&package.repository),
            authors,
            clone_opt(&package.license),
        ))
    }
}

/// The message of each failure of building the metadata.
pub open spec fn metadata_error_text(e: ManifestError) -> Seq<char> {
    match e {
        ManifestError::NoPackage => "No package section found in Cargo.toml"@,
        ManifestError::NoParent => "Manifest path has no parent"@,
        ManifestError::Unreadable(m) => m@,
    }
}

impl ProjectMetadata {
    /// The message that explains why [`ProjectMetadata::from_manifest`] or
    /// [`readme_candidates`] failed.
    pub fn failure_message(e: &ManifestError) -> (m: String)
        ensures
            m@ == metadata_error_text(*e),
    {
        match e {
            ManifestError::NoPackage => "No package section found in Cargo.toml".to_owned(),
            ManifestError::NoParent => "Manifest path has no parent".to_owned(),
            ManifestError::Unreadable(m) => m.clone(),
        }
    }
}

/// README file names tried, in order, when the manifest declares none.
pub open spec fn default_readme_names() -> Seq<Seq<char>> {
    seq!["README.md"@, "README"@, "Readme.md"@, "README.txt"@]
}

/// The files that may hold the README, in the order in which they are tried:
/// the declared README path if the package declares one, otherwise the
/// default names; each joined onto the manifest's directory.
pub open spec fn readme_candidate_paths(dir: Seq<char>, declared: Option<Seq<char>>) -> Seq<Seq<char>> {
    match declared {
        Some(p) => seq![join_path(dir, p)],
        None => default_readme_names().map_values(|n: Seq<char>| join_path(dir, n)),
    }
}

/// Where to look for the README of the package in `manifest`, which was
/// read from `manifest_path`. Fails without a package, or when the manifest
/// path has no parent directory.
pub fn readme_candidates(manifest_path: &str, manifest: &ManifestInfo) -> (r: Result<Vec<String>, ManifestError>)
    ensures
        manifest.package is None ==> (r matches Err(e) && e is NoPackage),
        manifest.package is Some && parent_of_path(manifest_path@) is None ==> (r matches Err(e)
            && e is NoParent),
        r is Ok <==> (manifest.package is Some && parent_of_path(manifest_path@) is Some),
        r matches Ok(v) ==> texts(v@) == readme_candidate_paths(
            parent_of_path(manifest_path@)->Some_0,
            opt_text(manifest.package->Some_0.readme),
        ),
{
    let package = match &manifest.package {
        Some(p) => p,
        None => return Err(ManifestError::NoPackage),
    };
    let dir = match parent(manifest_path) {
        Some(d) => d,
        None => return Err(ManifestError::NoParent),
    };
    let mut v: Vec<String> = Vec::new();
    match &package.readme {
        Some(declared) => {
            v.push(join(dir.as_str(), declared.as_str()));
            assert(texts(v@) =~= seq![join_path(dir@, declared@)]);
        },
        None => {
            v.push(join(dir.as_str(), "README.md"));
            v.push(join(dir.as_str(), "README"));
            v.push(join(dir.as_str(), "Readme.md"));
            v.push(join(dir.as_str(), "README.txt"));
            assert(texts(v@) =~= default_readme_names().map_values(|n: Seq<char>| join_path(dir@, n)));
        },
    }
    Ok(v)
}

/// Clone of an optional string.
pub(crate) fn clone_opt(o: &Option<String>) -> (r: Option<String>)
    ensures
        opt_text(r) == opt_text(*o),
{
    match o {
        Some(s) => Some(s.clone()),
        None => None,
    }
}

} // verus!

verus! {

/// The project line and, if there is a description, its line: what starts
/// every metadata block.
pub open spec fn metadata_head(name: Seq<char>, version: Seq<char>, description: Option<Seq<char>>) -> Seq<char> {
    "// Project: "@ + name + " (v"@ + version + ")\n"@ + match description {
        Some(d) => "// Description: "@ + d + "\n"@,
        None => Seq::empty(),
    }
}

/// The authors' line: with at least one author, the block is the block
/// without authors with the line `// Authors: <authors joined by ", ">`
/// put right after the project and description lines; without authors the
/// block starts with those lines. Authors are joined as written: one alone,
/// or the ones before the last, `", "`, then the last.
pub proof fn lemma_authors_line(
    name: Seq<char>,
    version: Seq<char>,
    description: Option<Seq<char>>,
    readme: Option<Seq<char>>,
    repository: Option<Seq<char>>,
    authors: Seq<Seq<char>>,
    license: Option<Seq<char>>,
)
    ensures
        ({
            let head = metadata_head(name, version, description);
            let bare = ProjectMetadata::rendering_of(name, version, description, readme, repository, Seq::empty(), license);
            &&& head.is_prefix_of(bare)
            &&& authors.len() > 0 ==> ProjectMetadata::rendering_of(
                name,
                version,
                description,
                readme,
                repository,
                authors,
                license,
            ) == head + "// Authors: "@ + joined(authors, ", "@) + "\n"@ + bare.subrange(head.len() as int, bare.len() as int)
        }),
        authors.len() == 1 ==> joined(authors, ", "@) == authors[0],
        authors.len() > 1 ==> joined(authors, ", "@) == joined(authors.drop_last(), ", "@) + ", "@ + authors.last(),
{
    let head = metadata_head(name, version, description);
    let d = optional_line("// Description: "@, description);
    assert(head =~= "// Project: "@ + name + " (v"@ + version + ")\n"@ + d);
    let tail = optional_line("// License: "@, license) + optional_line("// Repository: "@, repository) + match readme {
        Some(r) => "\n// README\n// ======\n"@ + commented_lines(lines_of(r)) + "// ======\n\n"@,
        None => Seq::empty(),
    };
    let bare = ProjectMetadata::rendering_of(name, version, description, readme, repository, Seq::empty(), license);
    assert(bare =~= head + tail);
    assert(bare.subrange(0, head.len() as int) =~= head);
    assert(bare.subrange(head.len() as int, bare.len() as int) =~= tail);
    if authors.len() > 0 {
        assert(ProjectMetadata::rendering_of(name, version, description, readme, repository, authors, license) =~= head
            + "// Authors: "@ + joined(authors, ", "@) + "\n"@ + tail);
    }
}

} // verus!
