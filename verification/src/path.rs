//! The path resolver: every path a manifest declares passes through here
//! before anything is read or written.
//!
//! Paths are strings. How a string splits into components, whether it is
//! absolute and how two paths join is the platform's business and is asked
//! of `std::path`; what the engine does with the answers is decided here.

use crate::environment::{expand_env_vars, expand_spec, Environment};
use crate::text::{from_chars, texts, to_chars, trim_chars, trimmed};
use std::path::{Component, Path};
use vstd::prelude::*;

verus! {

/// One component of a path, as `std::path::Component` tells them apart.
#[derive(Debug, Clone, PartialEq, Eq)]
pub enum PathPart {
    /// A Windows path prefix such as `C:`.
    Prefix(String),
    /// The root directory.
    RootDir,
    /// A reference to the current directory, `.`.
    CurDir,
    /// A reference to the parent directory, `..`.
    ParentDir,
    /// An ordinary file or directory name.
    Normal(String),
}

/// The mathematical form of a [`PathPart`].
pub enum PartModel {
    Prefix(Seq<char>),
    RootDir,
    CurDir,
    ParentDir,
    Normal(Seq<char>),
}

impl View for PathPart {
    type V = PartModel;

    open spec fn view(&self) -> PartModel {
        match self {
            PathPart::Prefix(p) => PartModel::Prefix(p@),
            PathPart::RootDir => PartModel::RootDir,
            PathPart::CurDir => PartModel::CurDir,
            PathPart::ParentDir => PartModel::ParentDir,
            PathPart::Normal(n) => PartModel::Normal(n@),
        }
    }
}

/// The views of a sequence of components.
pub open spec fn part_models(parts: Seq<PathPart>) -> Seq<PartModel> {
    parts.map_values(|p: PathPart| p@)
}

/// The components of a path, in the platform's path syntax.
pub uninterp spec fn path_components(path: Seq<char>) -> Seq<PartModel>;

/// Whether a path is absolute, in the platform's path syntax.
pub uninterp spec fn is_absolute_path(path: Seq<char>) -> bool;

/// The path that joining `rel` onto `base` gives, in the platform's path
/// syntax.
pub uninterp spec fn joined_path(base: Seq<char>, rel: Seq<char>) -> Seq<char>;

/// `Path::components` splits a path into its components. The components
/// of a path depend on the path alone; each is handed over with its text.
#[verifier::external_body]
pub(crate) fn split_path(path: &str) -> (parts: Vec<PathPart>)
    ensures
        part_models(parts@) == path_components(path@),
{
    let mut parts = Vec::new();
    for c in Path::new(path).components() {
        parts.push(match c {
            Component::Prefix(p) => PathPart::Prefix(p.as_os_str().to_string_lossy().into_owned()),
            Component::RootDir => PathPart::RootDir,
            Component::CurDir => PathPart::CurDir,
            Component::ParentDir => PathPart::ParentDir,
            Component::Normal(n) => PathPart::Normal(n.to_string_lossy().into_owned()),
        });
    }
    parts
}

/// `Path::is_absolute` tells whether a path is absolute; the answer
/// depends on the path alone.
#[verifier::external_body]
pub(crate) fn path_is_absolute(path: &str) -> (absolute: bool)
    ensures
        absolute == is_absolute_path(path@),
{
    Path::new(path).is_absolute()
}

/// `Path::join` adjoins `rel` to `base`; the result depends on the two
/// paths alone.
#[verifier::external_body]
pub(crate) fn path_join(base: &str, rel: &str) -> (joined: String)
    ensures
        joined@ == joined_path(base@, rel@),
{
    Path::new(base).join(rel).to_string_lossy().into_owned()
}

/// Why a path was refused where a relative path inside its base was asked
/// for.
#[derive(Debug, Clone, Copy, PartialEq, Eq, Structural)]
pub enum PathError {
    /// The path is empty or blank.
    Empty,
    /// The path names the current directory and nothing else.
    CurrentDir,
    /// The path holds a `..` component.
    ParentDir,
    /// The path is rooted or carries a prefix.
    NotRelative,
}

impl PathError {
    /// The error in words.
    pub open spec fn text(self) -> Seq<char> {
        match self {
            PathError::Empty => "Path cannot be empty"@,
            PathError::CurrentDir => "Path cannot be '.'"@,
            PathError::ParentDir => "Path cannot contain '..'"@,
            PathError::NotRelative => "Path must be relative"@,
        }
    }

    /// The error in words.
    pub fn message(&self) -> (text: String)
        ensures
            text@ == self.text(),
    {
        match self {
            PathError::Empty => "Path cannot be empty".to_owned(),
            PathError::CurrentDir => "Path cannot be '.'".to_owned(),
            PathError::ParentDir => "Path cannot contain '..'".to_owned(),
            PathError::NotRelative => "Path must be relative".to_owned(),
        }
    }
}

/// A path that stays inside its base: the names to descend through, in
/// order. No names at all stands for the base itself, written `.`.
#[derive(Debug, Clone)]
pub struct RelativePath {
    pub segments: Vec<String>,
}

impl View for RelativePath {
    type V = Seq<Seq<char>>;

    open spec fn view(&self) -> Seq<Seq<char>> {
        texts(self.segments@)
    }
}

/// Why a single component cannot stand in a relative path, if it cannot.
pub open spec fn violation_of(part: PartModel) -> Option<PathError> {
    match part {
        PartModel::ParentDir => Some(PathError::ParentDir),
        PartModel::RootDir => Some(PathError::NotRelative),
        PartModel::Prefix(_) => Some(PathError::NotRelative),
        _ => None,
    }
}

/// The violation of the first offending component at or after `from`.
pub open spec fn first_violation(parts: Seq<PartModel>, from: int) -> Option<PathError>
    decreases parts.len() - from,
{
    if from < 0 || from >= parts.len() {
        None
    } else {
        match violation_of(parts[from]) {
            Some(e) => Some(e),
            None => first_violation(parts, from + 1),
        }
    }
}

/// The ordinary names among the components, in order.
pub open spec fn normal_segments(parts: Seq<PartModel>) -> Seq<Seq<char>>
    decreases parts.len(),
{
    if parts.len() == 0 {
        Seq::empty()
    } else {
        match parts.last() {
            PartModel::Normal(n) => normal_segments(parts.drop_last()).push(n),
            _ => normal_segments(parts.drop_last()),
        }
    }
}

/// What normalising a path gives, from its components: the first `..`,
/// root or prefix refuses the path; otherwise the ordinary names remain,
/// and a path without any is the current directory, which is accepted
/// only where `allow_current` says so.
pub open spec fn normalize_spec(parts: Seq<PartModel>, allow_current: bool) -> Result<
    Seq<Seq<char>>,
    PathError,
> {
    match first_violation(parts, 0) {
        Some(e) => Err(e),
        None => {
            let names = normal_segments(parts);
            if names.len() > 0 || allow_current {
                Ok(names)
            } else {
                Err(PathError::CurrentDir)
            }
        },
    }
}

/// What normalising a path string gives. Surrounding whitespace is
/// dropped. A string of which nothing remains is the current directory
/// where that is allowed and is refused as empty where it is not; any
/// other is split into components, and these are normalised.
pub open spec fn normalized(path: Seq<char>, allow_current: bool) -> Result<
    Seq<Seq<char>>,
    PathError,
> {
    if trimmed(path).len() == 0 {
        if allow_current {
            Ok(Seq::empty())
        } else {
            Err(PathError::Empty)
        }
    } else {
        normalize_spec(path_components(trimmed(path)), allow_current)
    }
}

/// A result of normalising, seen through the view of the path.
pub open spec fn path_result(r: Result<RelativePath, PathError>) -> Result<
    Seq<Seq<char>>,
    PathError,
> {
    match r {
        Ok(p) => Ok(p@),
        Err(e) => Err(e),
    }
}

/// A sequence of components that holds `..` holds a violation.
pub proof fn lemma_parent_dir_is_violation(parts: Seq<PartModel>, from: int, at: int)
    requires
        0 <= from <= at < parts.len(),
        parts[at] == PartModel::ParentDir,
    ensures
        first_violation(parts, from) is Some,
    decreases at - from,
{
    if from < at && violation_of(parts[from]) is None {
        lemma_parent_dir_is_violation(parts, from + 1, at);
    }
}

/// Components with a `..` among them are refused, whatever stands
/// around it and whether or not the current directory is allowed.
pub proof fn lemma_parent_dir_rejected(parts: Seq<PartModel>, allow_current: bool)
    requires
        parts.contains(PartModel::ParentDir),
    ensures
        normalize_spec(parts, allow_current) is Err,
{
    let at = choose|i: int| 0 <= i < parts.len() && parts[i] == PartModel::ParentDir;
    lemma_parent_dir_is_violation(parts, 0, at);
}

/// A path with a `..` component is refused, however many ordinary names
/// stand around the component and whether or not the current directory
/// is allowed.
pub proof fn lemma_parent_dir_path_rejected(path: Seq<char>, allow_current: bool)
    requires
        trimmed(path).len() > 0,
        path_components(trimmed(path)).contains(PartModel::ParentDir),
    ensures
        normalized(path, allow_current) is Err,
{
    lemma_parent_dir_rejected(path_components(trimmed(path)), allow_current);
}

/// Accepted components hold no `..`, no root and no prefix.
pub proof fn lemma_accepted_path_is_clean(parts: Seq<PartModel>, allow_current: bool)
    requires
        normalize_spec(parts, allow_current) is Ok,
    ensures
        forall|i: int| 0 <= i < parts.len() ==> violation_of(#[trigger] parts[i]) is None,
{
    assert forall|i: int| 0 <= i < parts.len() implies violation_of(#[trigger] parts[i]) is None by {
        lemma_no_violation_before(parts, 0, i);
    }
}

proof fn lemma_no_violation_before(parts: Seq<PartModel>, from: int, at: int)
    requires
        0 <= from <= at < parts.len(),
        first_violation(parts, from) is None,
    ensures
        violation_of(parts[at]) is None,
    decreases at - from,
{
    if from < at {
        lemma_no_violation_before(parts, from + 1, at);
    }
}

/// Normalises the components of a path, as [`normalize_spec`] says.
pub fn normalize_parts(parts: &Vec<PathPart>, allow_current: bool) -> (r: Result<
    RelativePath,
    PathError,
>)
    ensures
        path_result(r) == normalize_spec(part_models(parts@), allow_current),
{
    let ghost models = part_models(parts@);
    let mut segments: Vec<String> = Vec::new();
    let mut i: usize = 0;
    while i < parts.len()
        invariant
            i <= parts.len(),
            models == part_models(parts@),
            first_violation(models, 0) == first_violation(models, i as int),
            texts(segments@) == normal_segments(models.take(i as int)),
        decreases parts.len() - i,
    {
        assert(models.take(i + 1).drop_last() == models.take(i as int));
        match &parts[i] {
            PathPart::Normal(name) => {
                segments.push(name.clone());
            },
            PathPart::CurDir => {},
            PathPart::ParentDir => {
                return Err(PathError::ParentDir);
            },
            PathPart::RootDir => {
                return Err(PathError::NotRelative);
            },
            PathPart::Prefix(_) => {
                return Err(PathError::NotRelative);
            },
        }
        i += 1;
    }
    assert(models.take(i as int) == models);
    if segments.len() > 0 || allow_current {
        Ok(RelativePath { segments })
    } else {
        Err(PathError::CurrentDir)
    }
}

/// The components of a declared path, surrounding whitespace dropped;
/// none where nothing but whitespace was declared.
pub fn declared_parts(path_str: &str) -> (r: Option<Vec<PathPart>>)
    ensures
        match r {
            Some(parts) => trimmed(path_str@).len() > 0 && part_models(parts@) == path_components(
                trimmed(path_str@),
            ),
            None => trimmed(path_str@).len() == 0,
        },
{
    let chars = to_chars(path_str);
    let kept = trim_chars(&chars);
    if kept.len() == 0 {
        return None;
    }
    let text = from_chars(&kept);
    Some(split_path(text.as_str()))
}

/// Whether one of the components is `..`.
pub fn has_parent_dir(parts: &Vec<PathPart>) -> (found: bool)
    ensures
        found == part_models(parts@).contains(PartModel::ParentDir),
{
    let ghost models = part_models(parts@);
    let mut i: usize = 0;
    while i < parts.len()
        invariant
            i <= parts.len(),
            models == part_models(parts@),
            forall|j: int| 0 <= j < i ==> models[j] != PartModel::ParentDir,
        decreases parts.len() - i,
    {
        assert(models[i as int] == parts@[i as int]@);
        match &parts[i] {
            PathPart::ParentDir => {
                return true;
            },
            _ => {},
        }
        i += 1;
    }
    false
}

/// Normalises a path that a manifest declares as relative: surrounding
/// whitespace is dropped, `.` components are dropped, and the path is
/// refused with the matching [`PathError`] if it holds `..`, is rooted or
/// carries a prefix, or, unless `allow_current` is set, if nothing remains.
pub fn normalize_rel_path(path_str: &str, allow_current: bool) -> (r: Result<
    RelativePath,
    PathError,
>)
    ensures
        path_result(r) == normalized(path_str@, allow_current),
        trimmed(path_str@).len() > 0 && path_components(trimmed(path_str@)).contains(
            PartModel::ParentDir,
        ) ==> r is Err,
{
    match declared_parts(path_str) {
        Some(parts) => {
            proof {
                if path_components(trimmed(path_str@)).contains(PartModel::ParentDir) {
                    lemma_parent_dir_path_rejected(path_str@, allow_current);
                }
            }
            normalize_parts(&parts, allow_current)
        },
        None => if allow_current {
            let here = RelativePath { segments: Vec::new() };
            assert(here@ =~= Seq::<Seq<char>>::empty());
            Ok(here)
        } else {
            Err(PathError::Empty)
        },
    }
}

/// Whether a character may stand in a file name derived from foreign text.
pub open spec fn is_safe_char(c: char) -> bool {
    ('a' <= c && c <= 'z') || ('A' <= c && c <= 'Z') || ('0' <= c && c <= '9') || c == '-' || c
        == '_' || c == '.'
}

/// `c` if it is safe, `_` in its place if not.
pub open spec fn safe_or_underscore(c: char) -> char {
    if is_safe_char(c) {
        c
    } else {
        '_'
    }
}

/// The file-system-safe form of `input`: every unsafe character becomes
/// `_`, and the empty string becomes `_`.
pub open spec fn sanitized(input: Seq<char>) -> Seq<char> {
    if input.len() == 0 {
        seq!['_']
    } else {
        input.map_values(|c: char| safe_or_underscore(c))
    }
}

pub(crate) fn safe_char(c: char) -> (b: bool)
    ensures
        b == is_safe_char(c),
{
    ('a' <= c && c <= 'z') || ('A' <= c && c <= 'Z') || ('0' <= c && c <= '9') || c == '-' || c
        == '_' || c == '.'
}

/// Makes a name safe for use as a single path component: every character
/// outside `[A-Za-z0-9._-]` is replaced by `_`, and an empty name becomes
/// `_`. The result is never empty and holds safe characters only.
pub fn sanitize_component_name(input: &str) -> (out: String)
    ensures
        out@ == sanitized(input@),
        out@.len() > 0,
        forall|i: int| 0 <= i < out@.len() ==> is_safe_char(#[trigger] out@[i]),
{
    let chars = to_chars(input);
    let mut out = String::new();
    let mut i: usize = 0;
    while i < chars.len()
        invariant
            i <= chars.len(),
            chars@ == input@,
            out@ == input@.take(i as int).map_values(|c: char| safe_or_underscore(c)),
        decreases chars.len() - i,
    {
        let ch = chars[i];
        if safe_char(ch) {
            out.push(ch);
        } else {
            out.push('_');
        }
        i += 1;
    }
    if chars.len() == 0 {
        out.push('_');
    }
    out
}

/// The segments joined, one after the other, onto `base`.
pub open spec fn join_all(base: Seq<char>, segments: Seq<Seq<char>>) -> Seq<char>
    decreases segments.len(),
{
    if segments.len() == 0 {
        base
    } else {
        joined_path(join_all(base, segments.drop_last()), segments.last())
    }
}

/// A relative path written out: `.` for the base itself, else its names
/// joined in order.
pub open spec fn path_text(segments: Seq<Seq<char>>) -> Seq<char> {
    if segments.len() == 0 {
        "."@
    } else {
        join_all(Seq::empty(), segments)
    }
}

impl RelativePath {
    /// Whether the path names the base itself.
    pub fn is_current(&self) -> (b: bool)
        ensures
            b == (self@.len() == 0),
    {
        self.segments.len() == 0
    }

    /// The path as a string in the platform's syntax.
    pub fn to_path_string(&self) -> (out: String)
        ensures
            out@ == path_text(self@),
    {
        if self.segments.len() == 0 {
            return ".".to_owned();
        }
        let mut out = String::new();
        let mut i: usize = 0;
        while i < self.segments.len()
            invariant
                i <= self.segments.len(),
                out@ == join_all(Seq::empty(), self@.take(i as int)),
            decreases self.segments.len() - i,
        {
            assert(self@.take(i + 1).drop_last() == self@.take(i as int));
            out = path_join(out.as_str(), self.segments[i].as_str());
            i += 1;
        }
        assert(self@.take(i as int) == self@);
        out
    }

    /// The path below `base`.
    pub fn join_onto(&self, base: &str) -> (out: String)
        ensures
            out@ == joined_path(base@, path_text(self@)),
    {
        let rel = self.to_path_string();
        path_join(base, rel.as_str())
    }
}

/// Where a declared path points: the path with its references expanded,
/// taken as it is when that is absolute and joined onto `base` when not.
pub open spec fn resolve_spec(base: Seq<char>, path: Seq<char>, env: Environment) -> Seq<char> {
    let expanded = expand_spec(path, env);
    if is_absolute_path(expanded) {
        expanded
    } else {
        joined_path(base, expanded)
    }
}

/// Resolves a declared path against `base`: references are expanded from
/// `env`; an absolute result stands, a relative one is joined onto `base`.
pub fn resolve_path(base: &str, path: &str, env: &Environment) -> (out: String)
    ensures
        out@ == resolve_spec(base@, path@, *env),
{
    let expanded = expand_env_vars(path, env);
    if path_is_absolute(expanded.as_str()) {
        expanded
    } else {
        path_join(base, expanded.as_str())
    }
}

} // verus!
