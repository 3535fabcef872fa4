//! What packaging a distributable decides: the name and place of the
//! output folder, where a payload file is looked for, and where it lands.

use crate::path::{
    declared_parts, is_absolute_path, joined_path, normalize_rel_path, normalized, part_models,
    path_components, path_is_absolute, path_join, path_text, PartModel, PathError, PathPart,
};
use crate::text::{same_text, texts, trimmed};
use std::path::Path;
use vstd::prelude::*;

verus! {

/// Why a project name is refused.
#[derive(Debug, Clone, Copy, PartialEq, Eq, Structural)]
pub enum NameError {
    /// The name is empty or blank.
    Empty,
    /// The name holds more than one path component.
    NotSingle,
    /// The name is `.`.
    CurrentDir,
    /// The name is `..`.
    ParentDir,
    /// The name is a root or a prefix.
    NotRelative,
}

impl NameError {
    /// The error in words.
    pub open spec fn text(self) -> Seq<char> {
        match self {
            NameError::Empty => "Project name cannot be empty"@,
            NameError::NotSingle => "Project name must be a single folder name"@,
            NameError::CurrentDir => "Project name cannot be '.'"@,
            NameError::ParentDir => "Project name cannot be '..'"@,
            NameError::NotRelative => "Project name must be a relative name"@,
        }
    }

    /// The error in words.
    pub fn message(&self) -> (text: String)
        ensures
            text@ == self.text(),
    {
        match self {
            NameError::Empty => "Project name cannot be empty".to_owned(),
            NameError::NotSingle => "Project name must be a single folder name".to_owned(),
            NameError::CurrentDir => "Project name cannot be '.'".to_owned(),
            NameError::ParentDir => "Project name cannot be '..'".to_owned(),
            NameError::NotRelative => "Project name must be a relative name".to_owned(),
        }
    }
}

/// What validating a project name gives, from the components of the
/// name: the name must be a single ordinary component.
pub open spec fn name_spec(parts: Seq<PartModel>) -> Result<Seq<char>, NameError> {
    if parts.len() == 0 {
        Err(NameError::Empty)
    } else if parts.len() > 1 {
        Err(NameError::NotSingle)
    } else {
        match parts[0] {
            PartModel::Normal(name) => Ok(name),
            PartModel::CurDir => Err(NameError::CurrentDir),
            PartModel::ParentDir => Err(NameError::ParentDir),
            PartModel::RootDir => Err(NameError::NotRelative),
            PartModel::Prefix(_) => Err(NameError::NotRelative),
        }
    }
}

/// What validating a project name gives: a blank name is refused as
/// empty; any other is split into components, and these are judged.
pub open spec fn valid_name(name: Seq<char>) -> Result<Seq<char>, NameError> {
    if trimmed(name).len() == 0 {
        Err(NameError::Empty)
    } else {
        name_spec(path_components(trimmed(name)))
    }
}

/// A validation result seen through the view of the name.
pub open spec fn name_result(r: Result<String, NameError>) -> Result<Seq<char>, NameError> {
    match r {
        Ok(name) => Ok(name@),
        Err(e) => Err(e),
    }
}

/// Validates a project name from its components, as [`name_spec`] says.
pub fn validate_name_parts(parts: &Vec<PathPart>) -> (r: Result<String, NameError>)
    ensures
        name_result(r) == name_spec(part_models(parts@)),
{
    if parts.len() == 0 {
        return Err(NameError::Empty);
    }
    if parts.len() > 1 {
        return Err(NameError::NotSingle);
    }
    match &parts[0] {
        PathPart::Normal(name) => Ok(name.clone()),
        PathPart::CurDir => Err(NameError::CurrentDir),
        PathPart::ParentDir => Err(NameError::ParentDir),
        PathPart::RootDir => Err(NameError::NotRelative),
        PathPart::Prefix(_) => Err(NameError::NotRelative),
    }
}

/// Validates the name of a project: without surrounding whitespace it
/// must be a single folder name, not `.`, not `..`, and not a root.
pub fn validate_project_name(name: &str) -> (r: Result<String, NameError>)
    ensures
        name_result(r) == valid_name(name@),
{
    match declared_parts(name) {
        Some(parts) => validate_name_parts(&parts),
        None => Err(NameError::Empty),
    }
}

/// Whether a directory of this name is passed over when a payload
/// directory is searched for. The name is expected in lower case.
pub open spec fn is_skipped_dir(name: Seq<char>) -> bool {
    ||| name == "node_modules"@
    ||| name == ".git"@
    ||| name == "target"@
    ||| name == "dist"@
    ||| name == ".cache"@
    ||| name == "appdata"@
    ||| name == "windows"@
    ||| name == "program files"@
    ||| name == "program files (x86)"@
}

/// Whether a directory of this name is passed over when a payload
/// directory is searched for: build output, caches, version control and
/// system folders are.
pub fn should_skip_dir(name: &str) -> (skip: bool)
    ensures
        skip == is_skipped_dir(name@),
{
    same_text(name, "node_modules") || same_text(name, ".git") || same_text(name, "target")
        || same_text(name, "dist") || same_text(name, ".cache") || same_text(name, "appdata")
        || same_text(name, "windows") || same_text(name, "program files") || same_text(
        name,
        "program files (x86)",
    )
}

/// The lower-case form of a text.
pub uninterp spec fn lowercase_text(text: Seq<char>) -> Seq<char>;

/// `str::to_lowercase` gives the lower-case form of a string; it depends
/// on the string alone.
#[verifier::external_body]
fn to_lowercase(text: &str) -> (lower: String)
    ensures
        lower@ == lowercase_text(text@),
{
    text.to_lowercase()
}

/// Whether a directory entry is passed over when a payload directory is
/// searched for: its name, in lower case, is one of those that
/// [`should_skip_dir`] names.
pub fn should_skip_entry(file_name: &str) -> (skip: bool)
    ensures
        skip == is_skipped_dir(lowercase_text(file_name@)),
{
    let lower = to_lowercase(file_name);
    should_skip_dir(lower.as_str())
}

/// Whether the root at index `at` is the first of its kind: no root
/// before it differs from it in case only.
pub open spec fn is_first_of_kind(roots: Seq<Seq<char>>, at: int) -> bool {
    forall|j: int| 0 <= j < at ==> lowercase_text(#[trigger] roots[j]) != lowercase_text(roots[at])
}

/// The roots without those that repeat an earlier one, case aside; the
/// order stays.
pub open spec fn distinct_spec(roots: Seq<Seq<char>>) -> Seq<Seq<char>>
    decreases roots.len(),
{
    if roots.len() == 0 {
        Seq::empty()
    } else {
        let before = distinct_spec(roots.drop_last());
        if is_first_of_kind(roots, roots.len() - 1) {
            before.push(roots.last())
        } else {
            before
        }
    }
}

/// Drops from a list of search roots each root that repeats an earlier
/// one, letter case aside, so that no directory is searched twice.
pub fn distinct_roots(roots: &Vec<String>) -> (kept: Vec<String>)
    ensures
        texts(kept@) == distinct_spec(texts(roots@)),
{
    let ghost all = texts(roots@);
    let mut kept: Vec<String> = Vec::new();
    let mut keys: Vec<String> = Vec::new();
    let mut i: usize = 0;
    while i < roots.len()
        invariant
            i <= roots.len(),
            all == texts(roots@),
            keys@.len() == i,
            forall|j: int| 0 <= j < i ==> (#[trigger] keys@[j])@ == lowercase_text(all[j]),
            texts(kept@) == distinct_spec(all.take(i as int)),
        decreases roots.len() - i,
    {
        let key = to_lowercase(roots[i].as_str());
        let mut seen = false;
        let mut j: usize = 0;
        while j < i
            invariant
                j <= i,
                i < roots.len(),
                keys@.len() == i,
                all == texts(roots@),
                key@ == lowercase_text(all[i as int]),
                forall|k: int| 0 <= k < i ==> (#[trigger] keys@[k])@ == lowercase_text(all[k]),
                seen <==> exists|k: int|
                    0 <= k < j && lowercase_text(#[trigger] all[k]) == lowercase_text(
                        all[i as int],
                    ),
            decreases i - j,
        {
            if same_text(keys[j].as_str(), key.as_str()) {
                seen = true;
            }
            j += 1;
        }
        proof {
            let upto = all.take(i + 1);
            assert(upto.drop_last() == all.take(i as int));
            assert(forall|k: int| 0 <= k <= i ==> upto[k] == all[k]);
        }
        if !seen {
            kept.push(roots[i].clone());
        }
        keys.push(key);
        i += 1;
    }
    assert(all.take(i as int) == all);
    kept
}

/// The parent of a path, in the platform's path syntax; none for a root
/// and for the empty path.
pub uninterp spec fn parent_path(path: Seq<char>) -> Option<Seq<char>>;

/// The last component of a path, if it is an ordinary name.
pub uninterp spec fn file_name_of(path: Seq<char>) -> Option<Seq<char>>;

/// Whether `base` is a prefix of `path`, component by component.
pub uninterp spec fn path_starts_with(path: Seq<char>, base: Seq<char>) -> bool;

/// `Path::parent` gives the path without its last component, if there is
/// one; the answer depends on the path alone.
#[verifier::external_body]
fn path_parent(path: &str) -> (parent: Option<String>)
    ensures
        match parent {
            Some(p) => parent_path(path@) == Some(p@),
            None => parent_path(path@) is None,
        },
{
    match Path::new(path).parent() {
        Some(p) => Some(p.to_string_lossy().into_owned()),
        None => None,
    }
}

/// `Path::file_name` gives the last component of a path where that is an
/// ordinary name; the answer depends on the path alone.
#[verifier::external_body]
fn path_file_name(path: &str) -> (name: Option<String>)
    ensures
        match name {
            Some(n) => file_name_of(path@) == Some(n@),
            None => file_name_of(path@) is None,
        },
{
    match Path::new(path).file_name() {
        Some(n) => Some(n.to_string_lossy().into_owned()),
        None => None,
    }
}

/// `Path::starts_with` compares whole components; the answer depends on
/// the two paths alone.
#[verifier::external_body]
fn starts_with_path(path: &str, base: &str) -> (r: bool)
    ensures
        r == path_starts_with(path@, base@),
{
    Path::new(path).starts_with(base)
}

/// Up to `count` ancestors of a path, the nearest first.
pub open spec fn ancestors(path: Seq<char>, count: nat) -> Seq<Seq<char>>
    decreases count,
{
    if count == 0 {
        Seq::empty()
    } else {
        match parent_path(path) {
            None => Seq::empty(),
            Some(parent) => seq![parent] + ancestors(parent, (count - 1) as nat),
        }
    }
}

/// A directory, if there is one, followed by up to `count` of its
/// ancestors.
pub open spec fn with_ancestors(dir: Option<Seq<char>>, count: nat) -> Seq<Seq<char>> {
    match dir {
        Some(d) => seq![d] + ancestors(d, count),
        None => Seq::empty(),
    }
}

/// The directories below which a relative payload source is looked for,
/// in order: the working directory and four of its ancestors, then the
/// directory of the executable and three of its ancestors.
pub open spec fn search_bases(cwd: Option<Seq<char>>, exe_dir: Option<Seq<char>>) -> Seq<
    Seq<char>,
> {
    with_ancestors(cwd, 4) + with_ancestors(exe_dir, 3)
}

/// The places at which a payload source is looked for, in order. An
/// absolute source is taken as it is and has none.
pub open spec fn candidates_spec(
    src: Seq<char>,
    cwd: Option<Seq<char>>,
    exe_dir: Option<Seq<char>>,
) -> Seq<Seq<char>> {
    if is_absolute_path(src) {
        Seq::empty()
    } else {
        search_bases(cwd, exe_dir).map_values(|base: Seq<char>| joined_path(base, src))
    }
}

/// The view of an optional string.
pub open spec fn optional_text(text: Option<&str>) -> Option<Seq<char>> {
    match text {
        Some(t) => Some(t@),
        None => None,
    }
}

fn push_with_ancestors(bases: &mut Vec<String>, dir: Option<&str>, count: usize)
    ensures
        texts(final(bases)@) == texts(old(bases)@) + with_ancestors(optional_text(dir), count as nat),
{
    let ghost before = texts(bases@);
    let start = match dir {
        Some(d) => d,
        None => {
            return ;
        },
    };
    bases.push(start.to_owned());
    let mut cursor = start.to_owned();
    let mut left: usize = count;
    let ghost mut done: Seq<Seq<char>> = Seq::empty();
    loop
        invariant
            left <= count,
            texts(bases@) == before + seq![start@] + done,
            done + ancestors(cursor@, left as nat) == ancestors(start@, count as nat),
        ensures
            ancestors(cursor@, left as nat) == Seq::<Seq<char>>::empty(),
        decreases left,
    {
        if left == 0 {
            break ;
        }
        match path_parent(cursor.as_str()) {
            None => {
                break ;
            },
            Some(parent) => {
                let ghost shown = texts(bases@);
                bases.push(parent.clone());
                assert(texts(bases@) == shown.push(parent@));
                proof {
                    done = done.push(parent@);
                }
                cursor = parent;
                left -= 1;
            },
        }
    }
}

/// Lists the places at which a payload source is to be looked for, in
/// the order in which they are tried; the first that exists is the
/// source. An absolute source, and one found at none of the places, is
/// taken as it is.
pub fn payload_source_candidates(src: &str, cwd: Option<&str>, exe_dir: Option<&str>) -> (places:
    Vec<String>)
    ensures
        texts(places@) == candidates_spec(src@, optional_text(cwd), optional_text(exe_dir)),
{
    let mut places: Vec<String> = Vec::new();
    if path_is_absolute(src) {
        return places;
    }
    let mut bases: Vec<String> = Vec::new();
    push_with_ancestors(&mut bases, cwd, 4);
    push_with_ancestors(&mut bases, exe_dir, 3);
    let mut i: usize = 0;
    while i < bases.len()
        invariant
            i <= bases.len(),
            places@.len() == i,
            forall|j: int|
                0 <= j < i ==> (#[trigger] places@[j])@ == joined_path(bases@[j]@, src@),
        decreases bases.len() - i,
    {
        places.push(path_join(bases[i].as_str(), src));
        i += 1;
    }
    places
}

/// The folder that a build fills.
#[derive(Debug, Clone, PartialEq, Eq)]
pub struct BuildTarget {
    /// The folder itself.
    pub dist_root: String,
    /// The name of the project, which names the executable in it.
    pub project_name: String,
    /// Whether the folder was given as an absolute path.
    pub is_absolute: bool,
}

/// Why a build has no output folder.
#[derive(Debug, Clone, Copy, PartialEq, Eq, Structural)]
pub enum BuildError {
    /// The project name is refused.
    Name(NameError),
    /// The absolute output path ends in no folder name.
    NoFolderName,
    /// The output folder would lie outside the folder for builds.
    EscapedDist,
}

impl BuildError {
    /// The error in words.
    pub open spec fn text(self) -> Seq<char> {
        match self {
            BuildError::Name(e) => e.text(),
            BuildError::NoFolderName => "Absolute output path must include a folder name"@,
            BuildError::EscapedDist => "Resolved output path escaped dist/"@,
        }
    }

    /// The error in words.
    pub fn message(&self) -> (text: String)
        ensures
            text@ == self.text(),
    {
        match self {
            BuildError::Name(e) => e.message(),
            BuildError::NoFolderName => "Absolute output path must include a folder name".to_owned(
            ),
            BuildError::EscapedDist => "Resolved output path escaped dist/".to_owned(),
        }
    }
}

/// Whether a build writes to the absolute path that the project name
/// spells: only in advanced mode, and only if the name is one.
pub fn is_absolute_output(project_name: &str, advanced: bool) -> (absolute: bool)
    ensures
        absolute == (advanced && is_absolute_path(project_name@)),
{
    advanced && path_is_absolute(project_name)
}

/// The mathematical form of a [`BuildTarget`].
pub struct TargetModel {
    pub dist_root: Seq<char>,
    pub project_name: Seq<char>,
    pub is_absolute: bool,
}

impl View for BuildTarget {
    type V = TargetModel;

    open spec fn view(&self) -> TargetModel {
        TargetModel {
            dist_root: self.dist_root@,
            project_name: self.project_name@,
            is_absolute: self.is_absolute,
        }
    }
}

/// A build target result seen through its view.
pub open spec fn target_result(r: Result<BuildTarget, BuildError>) -> Result<
    TargetModel,
    BuildError,
> {
    match r {
        Ok(t) => Ok(t@),
        Err(e) => Err(e),
    }
}

/// The output folder of a build that writes to an absolute path: the
/// path itself, and the project is named after its last component.
pub open spec fn absolute_target_spec(output: Seq<char>) -> Result<TargetModel, BuildError> {
    match file_name_of(output) {
        Some(name) => Ok(TargetModel { dist_root: output, project_name: name, is_absolute: true }),
        None => Err(BuildError::NoFolderName),
    }
}

/// The output folder of a build below the folder for builds: the valid
/// project name, joined onto that folder, and inside it.
pub open spec fn relative_target_spec(dist_base: Seq<char>, project_name: Seq<char>) -> Result<
    TargetModel,
    BuildError,
> {
    match valid_name(project_name) {
        Err(e) => Err(BuildError::Name(e)),
        Ok(name) => if path_starts_with(joined_path(dist_base, name), dist_base) {
            Ok(
                TargetModel {
                    dist_root: joined_path(dist_base, name),
                    project_name: name,
                    is_absolute: false,
                },
            )
        } else {
            Err(BuildError::EscapedDist)
        },
    }
}

/// Names the output folder of a build that writes to the absolute path
/// `output`.
pub fn absolute_build_target(output: &str) -> (r: Result<BuildTarget, BuildError>)
    ensures
        target_result(r) == absolute_target_spec(output@),
{
    match path_file_name(output) {
        Some(project_name) => Ok(
            BuildTarget { dist_root: output.to_owned(), project_name, is_absolute: true },
        ),
        None => Err(BuildError::NoFolderName),
    }
}

/// Names the output folder of a build below `dist_base`.
pub fn relative_build_target(dist_base: &str, project_name: &str) -> (r: Result<
    BuildTarget,
    BuildError,
>)
    ensures
        target_result(r) == relative_target_spec(dist_base@, project_name@),
{
    let name = match validate_project_name(project_name) {
        Ok(name) => name,
        Err(e) => {
            return Err(BuildError::Name(e));
        },
    };
    let dist_root = path_join(dist_base, name.as_str());
    if !starts_with_path(dist_root.as_str(), dist_base) {
        return Err(BuildError::EscapedDist);
    }
    Ok(BuildTarget { dist_root, project_name: name, is_absolute: false })
}

/// Whether a build may clear an output folder that exists. A folder
/// below the folder for builds always may be; one given as an absolute
/// path only if it carries the marker of an earlier build, or if the
/// caller insists.
pub fn may_replace_output(is_absolute: bool, has_marker: bool, force_overwrite: bool) -> (allowed:
    bool)
    ensures
        allowed == (!is_absolute || has_marker || force_overwrite),
{
    !is_absolute || has_marker || force_overwrite
}

/// Where a payload file lands in the output: `relative_dest`, normalised,
/// below the payload folder of the output. A destination that is empty,
/// rooted or through `..` is refused.
pub fn payload_destination(payloads_dir: &str, relative_dest: &str) -> (r: Result<
    String,
    PathError,
>)
    ensures
        match r {
            Ok(dest) => normalized(relative_dest@, false) matches Ok(rel) && dest@ == joined_path(
                payloads_dir@,
                path_text(rel),
            ),
            Err(e) => normalized(relative_dest@, false) == Err::<Seq<Seq<char>>, PathError>(e),
        },
{
    match normalize_rel_path(relative_dest, false) {
        Ok(rel) => Ok(rel.join_onto(payloads_dir)),
        Err(e) => Err(e),
    }
}

} // verus!
