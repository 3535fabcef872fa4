//! The installation orchestrator, as a state machine.
//!
//! A run walks through `NotStarted`, `PayloadResolved`, `BackedUp` and
//! `Executing(i)` for each step `i` to `Completed`, or ends in `Failed`.
//! In each state the machine names the one thing to do next; the caller
//! does it and reports whether it went well. Nothing is undone when a
//! step fails: restoring the backup is a run of its own.

use crate::backup::{backup_namespace, namespace_of};
use crate::environment::Environment;
use crate::json::{JsonModel, JsonValue};
use crate::manifest::{InstallManifest, InstallStep};
use crate::patch::replacement_models;
use crate::path::{
    declared_parts, has_parent_dir, joined_path, lemma_parent_dir_rejected, normalize_parts,
    normalize_rel_path, normalized, path_components, path_join, path_text, resolve_path,
    resolve_spec, PartModel, PathError,
};
use crate::text::{
    lemma_lex_lt_total, lemma_lex_lt_transitive, lex_less, lex_lt, same_chars, texts, to_chars,
    trimmed,
};
use vstd::prelude::*;

verus! {

/// Where an install run takes place.
#[derive(Debug)]
pub struct InstallContext {
    /// The directory of the manifest; the payload directory and the
    /// targets are relative to it.
    pub manifest_dir: String,
    /// The directory that holds the backup namespaces.
    pub backup_base: String,
    /// What path expansion may substitute.
    pub env: Environment,
}

/// Why a run stops before a step is carried out.
#[derive(Debug, Clone, PartialEq, Eq)]
pub enum InstallError {
    /// A declared path is refused.
    PathViolation { path: String, error: PathError },
    /// The payload directory does not exist.
    PayloadMissing { path: String },
    /// A block patch names no content file.
    MissingContentFile { file: String },
}

/// The mathematical form of an [`InstallError`].
pub enum ErrorModel {
    PathViolation { path: Seq<char>, error: PathError },
    PayloadMissing { path: Seq<char> },
    MissingContentFile { file: Seq<char> },
}

impl View for InstallError {
    type V = ErrorModel;

    open spec fn view(&self) -> ErrorModel {
        match self {
            InstallError::PathViolation { path, error } => ErrorModel::PathViolation {
                path: path@,
                error: *error,
            },
            InstallError::PayloadMissing { path } => ErrorModel::PayloadMissing { path: path@ },
            InstallError::MissingContentFile { file } => ErrorModel::MissingContentFile {
                file: file@,
            },
        }
    }
}

impl InstallError {
    /// The error in words, with the path it is about.
    pub fn message(&self) -> (text: String)
        ensures
            text@ == match self@ {
                ErrorModel::PathViolation { path, error } => error.text() + ": "@ + path,
                ErrorModel::PayloadMissing { path } => "Payload directory not found: "@ + path,
                ErrorModel::MissingContentFile { file } => "PatchBlock requires contentFile: "@
                    + file,
            },
    {
        match self {
            InstallError::PathViolation { path, error } => {
                let mut text = error.message();
                text.append(": ");
                text.append(path.as_str());
                text
            },
            InstallError::PayloadMissing { path } => {
                let mut text = "Payload directory not found: ".to_owned();
                text.append(path.as_str());
                text
            },
            InstallError::MissingContentFile { file } => {
                let mut text = "PatchBlock requires contentFile: ".to_owned();
                text.append(file.as_str());
                text
            },
        }
    }
}

/// A step with its paths resolved: what is to be read and written, and
/// where.
#[derive(Debug, Clone)]
pub enum StepAction {
    /// Copy the file or directory `source` to `dest`.
    Copy { source: String, dest: String },
    /// Load `content_file`, make the replacements in it, and put the
    /// result between the markers in `target`.
    Patch {
        target: String,
        content_file: String,
        start_marker: String,
        end_marker: String,
        replacements: Vec<(String, String)>,
        strip_markers: bool,
    },
    /// Set `value` at `key_path` in the JSON file `target`.
    SetJson { target: String, key_path: String, value: JsonValue },
    /// Run `command` with `args`.
    Run { command: String, args: Vec<String> },
    /// Replace `placeholder` in `target` with the base64 text of
    /// `input_file`.
    Embed { target: String, placeholder: String, input_file: String },
}

/// The mathematical form of a [`StepAction`].
pub enum StepModel {
    Copy { source: Seq<char>, dest: Seq<char> },
    Patch {
        target: Seq<char>,
        content_file: Seq<char>,
        start_marker: Seq<char>,
        end_marker: Seq<char>,
        replacements: Seq<(Seq<char>, Seq<char>)>,
        strip_markers: bool,
    },
    SetJson { target: Seq<char>, key_path: Seq<char>, value: JsonModel },
    Run { command: Seq<char>, args: Seq<Seq<char>> },
    Embed { target: Seq<char>, placeholder: Seq<char>, input_file: Seq<char> },
}

impl View for StepAction {
    type V = StepModel;

    open spec fn view(&self) -> StepModel {
        match self {
            StepAction::Copy { source, dest } => StepModel::Copy { source: source@, dest: dest@ },
            StepAction::Patch {
                target,
                content_file,
                start_marker,
                end_marker,
                replacements,
                strip_markers,
            } => StepModel::Patch {
                target: target@,
                content_file: content_file@,
                start_marker: start_marker@,
                end_marker: end_marker@,
                replacements: replacement_models(replacements@),
                strip_markers: *strip_markers,
            },
            StepAction::SetJson { target, key_path, value } => StepModel::SetJson {
                target: target@,
                key_path: key_path@,
                value: value@,
            },
            StepAction::Run { command, args } => StepModel::Run {
                command: command@,
                args: texts(args@),
            },
            StepAction::Embed { target, placeholder, input_file } => StepModel::Embed {
                target: target@,
                placeholder: placeholder@,
                input_file: input_file@,
            },
        }
    }
}

/// Why a declared target is refused, if it is. A target must be a
/// relative path that stays below its base; a rooted path is let through
/// in advanced mode only, a path through `..` never.
pub open spec fn target_violation(target: Seq<char>, advanced: bool) -> Option<PathError> {
    match normalized(target, false) {
        Ok(_) => None,
        Err(e) => if advanced && e == PathError::NotRelative {
            if path_components(trimmed(target)).contains(PartModel::ParentDir) {
                Some(PathError::ParentDir)
            } else {
                None
            }
        } else {
            Some(e)
        },
    }
}

/// A target through `..` is refused, in advanced mode too.
pub proof fn lemma_parent_dir_target_refused(target: Seq<char>, advanced: bool)
    requires
        path_components(trimmed(target)).contains(PartModel::ParentDir),
    ensures
        target_violation(target, advanced) is Some,
{
    lemma_parent_dir_rejected(path_components(trimmed(target)), false);
}

/// Checks a declared target, as [`target_violation`] says.
pub fn check_target(target: &str, advanced: bool) -> (r: Option<PathError>)
    ensures
        r == target_violation(target@, advanced),
{
    let parts = match declared_parts(target) {
        Some(parts) => parts,
        None => {
            return Some(PathError::Empty);
        },
    };
    match normalize_parts(&parts, false) {
        Ok(_) => None,
        Err(e) => match e {
            PathError::NotRelative => if !advanced {
                Some(e)
            } else if has_parent_dir(&parts) {
                Some(PathError::ParentDir)
            } else {
                None
            },
            _ => Some(e),
        },
    }
}

/// The path of a payload file: `declared`, normalised, below the payload
/// directory.
pub open spec fn payload_file_spec(payload_source: Seq<char>, declared: Seq<char>) -> Result<
    Seq<char>,
    ErrorModel,
> {
    match normalized(declared, false) {
        Ok(rel) => Ok(joined_path(payload_source, path_text(rel))),
        Err(e) => Err(ErrorModel::PathViolation { path: declared, error: e }),
    }
}

/// The place that a declared target names: the target, checked, resolved
/// against the directory of the manifest.
pub open spec fn target_spec(ctx: InstallContext, declared: Seq<char>, advanced: bool) -> Result<
    Seq<char>,
    ErrorModel,
> {
    match target_violation(declared, advanced) {
        Some(e) => Err(ErrorModel::PathViolation { path: declared, error: e }),
        None => Ok(resolve_spec(ctx.manifest_dir@, declared, ctx.env)),
    }
}

/// The views of optional replacements; none is an empty list.
pub open spec fn optional_replacements(replacements: Option<Vec<(String, String)>>) -> Seq<
    (Seq<char>, Seq<char>),
> {
    match replacements {
        Some(list) => replacement_models(list@),
        None => Seq::empty(),
    }
}

/// What carrying out a step means, with every path resolved; or why the
/// step is refused. Paths are checked in the order in which a step names
/// them, and the first refusal counts.
pub open spec fn plan_spec(
    step: InstallStep,
    ctx: InstallContext,
    payload_source: Seq<char>,
    advanced: bool,
) -> Result<StepModel, ErrorModel> {
    match step {
        InstallStep::Copy { src, dest } => match payload_file_spec(payload_source, src@) {
            Err(e) => Err(e),
            Ok(source) => match target_spec(ctx, dest@, advanced) {
                Err(e) => Err(e),
                Ok(dest) => Ok(StepModel::Copy { source, dest }),
            },
        },
        InstallStep::PatchBlock { file, start_marker, end_marker, content_file, replacements } => {
            match target_spec(ctx, file@, advanced) {
                Err(e) => Err(e),
                Ok(target) => match content_file {
                    None => Err(ErrorModel::MissingContentFile { file: file@ }),
                    Some(declared) => match payload_file_spec(payload_source, declared@) {
                        Err(e) => Err(e),
                        Ok(content_file) => Ok(
                            StepModel::Patch {
                                target,
                                content_file,
                                start_marker: start_marker@,
                                end_marker: end_marker@,
                                replacements: optional_replacements(replacements),
                                strip_markers: advanced,
                            },
                        ),
                    },
                },
            }
        },
        InstallStep::SetJsonValue { file, key_path, value } => match target_spec(
            ctx,
            file@,
            advanced,
        ) {
            Err(e) => Err(e),
            Ok(target) => Ok(StepModel::SetJson { target, key_path: key_path@, value: value@ }),
        },
        InstallStep::RunCommand { command, args } => Ok(
            StepModel::Run { command: command@, args: texts(args@) },
        ),
        InstallStep::Base64Embed { file, placeholder, input_file } => match target_spec(
            ctx,
            file@,
            advanced,
        ) {
            Err(e) => Err(e),
            Ok(target) => match payload_file_spec(payload_source, input_file@) {
                Err(e) => Err(e),
                Ok(input_file) => Ok(
                    StepModel::Embed { target, placeholder: placeholder@, input_file },
                ),
            },
        },
    }
}

/// The paths that a step declares, in the order in which it names them.
pub open spec fn declared_paths(step: InstallStep) -> Seq<Seq<char>> {
    match step {
        InstallStep::Copy { src, dest } => seq![src@, dest@],
        InstallStep::PatchBlock { file, content_file, .. } => match content_file {
            Some(declared) => seq![file@, declared@],
            None => seq![file@],
        },
        InstallStep::SetJsonValue { file, .. } => seq![file@],
        InstallStep::RunCommand { .. } => Seq::empty(),
        InstallStep::Base64Embed { file, input_file, .. } => seq![file@, input_file@],
    }
}

/// A step that declares a path through `..` is refused: whichever of its
/// paths holds the component, in whatever place, and in advanced mode
/// too, the step is not planned and so changes nothing.
pub proof fn lemma_escaping_step_is_refused(
    step: InstallStep,
    ctx: InstallContext,
    payload_source: Seq<char>,
    advanced: bool,
    at: int,
)
    requires
        0 <= at < declared_paths(step).len(),
        path_components(trimmed(declared_paths(step)[at])).contains(PartModel::ParentDir),
    ensures
        plan_spec(step, ctx, payload_source, advanced) is Err,
{
    let declared = declared_paths(step)[at];
    lemma_parent_dir_target_refused(declared, advanced);
    lemma_parent_dir_rejected(path_components(trimmed(declared)), false);
}

/// A planning result seen through its views.
pub open spec fn plan_result(r: Result<StepAction, InstallError>) -> Result<StepModel, ErrorModel> {
    match r {
        Ok(action) => Ok(action@),
        Err(e) => Err(e@),
    }
}

/// A path result seen through its views.
pub open spec fn text_result(r: Result<String, InstallError>) -> Result<Seq<char>, ErrorModel> {
    match r {
        Ok(text) => Ok(text@),
        Err(e) => Err(e@),
    }
}

fn payload_file(payload_source: &str, declared: &str) -> (r: Result<String, InstallError>)
    ensures
        text_result(r) == payload_file_spec(payload_source@, declared@),
{
    match normalize_rel_path(declared, false) {
        Ok(rel) => Ok(rel.join_onto(payload_source)),
        Err(error) => Err(InstallError::PathViolation { path: declared.to_owned(), error }),
    }
}

fn resolve_target(ctx: &InstallContext, declared: &str, advanced: bool) -> (r: Result<
    String,
    InstallError,
>)
    ensures
        text_result(r) == target_spec(*ctx, declared@, advanced),
{
    match check_target(declared, advanced) {
        Some(error) => Err(InstallError::PathViolation { path: declared.to_owned(), error }),
        None => Ok(resolve_path(ctx.manifest_dir.as_str(), declared, &ctx.env)),
    }
}

fn copy_texts(list: &Vec<String>) -> (copy: Vec<String>)
    ensures
        texts(copy@) == texts(list@),
{
    let mut copy: Vec<String> = Vec::new();
    let mut i: usize = 0;
    while i < list.len()
        invariant
            i <= list.len(),
            copy@.len() == i,
            forall|j: int| 0 <= j < i ==> (#[trigger] copy@[j])@ == list@[j]@,
        decreases list.len() - i,
    {
        copy.push(list[i].clone());
        i += 1;
    }
    copy
}

fn copy_replacements(list: &Option<Vec<(String, String)>>) -> (copy: Vec<(String, String)>)
    ensures
        replacement_models(copy@) == optional_replacements(*list),
{
    let mut copy: Vec<(String, String)> = Vec::new();
    match list {
        Some(pairs) => {
            let mut i: usize = 0;
            while i < pairs.len()
                invariant
                    i <= pairs.len(),
                    copy@.len() == i,
                    forall|j: int|
                        0 <= j < i ==> (#[trigger] copy@[j]).0@ == pairs@[j].0@ && copy@[j].1@
                            == pairs@[j].1@,
                decreases pairs.len() - i,
            {
                copy.push((pairs[i].0.clone(), pairs[i].1.clone()));
                i += 1;
            }
        },
        None => {},
    }
    copy
}

/// Resolves the paths of a step. Payload files are normalised and looked
/// for below `payload_source`; targets are checked and resolved against
/// the directory of the manifest. In advanced mode a block patch strips
/// its markers.
pub fn plan_step(step: &InstallStep, ctx: &InstallContext, payload_source: &str, advanced: bool)
    -> (r: Result<StepAction, InstallError>)
    ensures
        plan_result(r) == plan_spec(*step, *ctx, payload_source@, advanced),
{
    match step {
        InstallStep::Copy { src, dest } => {
            let source = match payload_file(payload_source, src.as_str()) {
                Ok(path) => path,
                Err(e) => {
                    return Err(e);
                },
            };
            let dest = match resolve_target(ctx, dest.as_str(), advanced) {
                Ok(path) => path,
                Err(e) => {
                    return Err(e);
                },
            };
            Ok(StepAction::Copy { source, dest })
        },
        InstallStep::PatchBlock { file, start_marker, end_marker, content_file, replacements } => {
            let target = match resolve_target(ctx, file.as_str(), advanced) {
                Ok(path) => path,
                Err(e) => {
                    return Err(e);
                },
            };
            let declared = match content_file {
                Some(declared) => declared,
                None => {
                    return Err(InstallError::MissingContentFile { file: file.clone() });
                },
            };
            let content_file = match payload_file(payload_source, declared.as_str()) {
                Ok(path) => path,
                Err(e) => {
                    return Err(e);
                },
            };
            Ok(
                StepAction::Patch {
                    target,
                    content_file,
                    start_marker: start_marker.clone(),
                    end_marker: end_marker.clone(),
                    replacements: copy_replacements(replacements),
                    strip_markers: advanced,
                },
            )
        },
        InstallStep::SetJsonValue { file, key_path, value } => {
            let target = match resolve_target(ctx, file.as_str(), advanced) {
                Ok(path) => path,
                Err(e) => {
                    return Err(e);
                },
            };
            Ok(StepAction::SetJson { target, key_path: key_path.clone(), value: value.duplicate() })
        },
        InstallStep::RunCommand { command, args } => Ok(
            StepAction::Run { command: command.clone(), args: copy_texts(args) },
        ),
        InstallStep::Base64Embed { file, placeholder, input_file } => {
            let target = match resolve_target(ctx, file.as_str(), advanced) {
                Ok(path) => path,
                Err(e) => {
                    return Err(e);
                },
            };
            let input_file = match payload_file(payload_source, input_file.as_str()) {
                Ok(path) => path,
                Err(e) => {
                    return Err(e);
                },
            };
            Ok(StepAction::Embed { target, placeholder: placeholder.clone(), input_file })
        },
    }
}

/// The file that a step changes in place, as the step declares it. A
/// copy makes a file and a command is not looked into: neither has one.
pub open spec fn step_target(step: InstallStep) -> Option<Seq<char>> {
    match step {
        InstallStep::PatchBlock { file, .. } => Some(file@),
        InstallStep::SetJsonValue { file, .. } => Some(file@),
        InstallStep::Base64Embed { file, .. } => Some(file@),
        _ => None,
    }
}

/// The path that is backed up on account of a step: the resolved target
/// of a step that changes a file in place, unless the target is refused,
/// in which case the step will change nothing.
pub open spec fn backup_target(step: InstallStep, ctx: InstallContext, advanced: bool) -> Option<
    Seq<char>,
> {
    match step_target(step) {
        Some(declared) => match target_spec(ctx, declared, advanced) {
            Ok(path) => Some(path),
            Err(_) => None,
        },
        None => None,
    }
}

/// Whether `path` is backed up on account of one of the first `count`
/// steps.
pub open spec fn is_backup_target(
    path: Seq<char>,
    steps: Seq<InstallStep>,
    count: int,
    ctx: InstallContext,
    advanced: bool,
) -> bool {
    exists|k: int|
        0 <= k < count && k < steps.len() && #[trigger] backup_target(steps[k], ctx, advanced)
            == Some(path)
}

/// Whether each path comes before the next in lexicographic order, so
/// that none stands twice.
pub open spec fn strictly_sorted(paths: Seq<Seq<char>>) -> bool {
    forall|i: int, j: int| 0 <= i < j < paths.len() ==> lex_lt(paths[i], paths[j])
}

/// Whether `paths` lists the backup targets of `steps`: all of them, each
/// once, in lexicographic order.
pub open spec fn is_target_list(
    paths: Seq<Seq<char>>,
    steps: Seq<InstallStep>,
    ctx: InstallContext,
    advanced: bool,
) -> bool {
    &&& strictly_sorted(paths)
    &&& forall|p: Seq<char>|
        paths.contains(p) <==> is_backup_target(p, steps, steps.len() as int, ctx, advanced)
}

fn comes_before(entry: &String, chars: &Vec<char>) -> (r: bool)
    ensures
        r == lex_lt(entry@, chars@),
{
    let here = to_chars(entry.as_str());
    lex_less(&here, chars)
}

fn insert_sorted(list: &mut Vec<String>, path: String)
    requires
        strictly_sorted(texts(old(list)@)),
    ensures
        strictly_sorted(texts(final(list)@)),
        forall|p: Seq<char>|
            texts(final(list)@).contains(p) <==> (texts(old(list)@).contains(p) || p == path@),
{
    let chars = to_chars(path.as_str());
    let ghost before = texts(list@);
    let mut pos: usize = 0;
    while pos < list.len() && comes_before(&list[pos], &chars)
        invariant
            pos <= list.len(),
            list@ == old(list)@,
            before == texts(list@),
            chars@ == path@,
            forall|j: int| 0 <= j < pos ==> lex_lt(#[trigger] before[j], chars@),
        decreases list.len() - pos,
    {
        pos += 1;
    }
    if pos < list.len() {
        let here = to_chars(list[pos].as_str());
        if same_chars(&here, &chars) {
            assert(before[pos as int] == path@);
            return ;
        }
        proof {
            lemma_lex_lt_total(before[pos as int], chars@);
            assert forall|j: int| pos <= j < before.len() implies lex_lt(
                chars@,
                #[trigger] before[j],
            ) by {
                if j > pos {
                    lemma_lex_lt_transitive(chars@, before[pos as int], before[j]);
                }
            }
        }
    }
    list.insert(pos, path);
    let ghost after = texts(list@);
    assert forall|i: int, j: int| 0 <= i < j < after.len() implies lex_lt(after[i], after[j]) by {
        if j < pos {
            assert(after[i] == before[i] && after[j] == before[j]);
        } else if j == pos {
            assert(after[i] == before[i]);
        } else if i < pos {
            assert(after[i] == before[i] && after[j] == before[j - 1]);
        } else if i == pos {
            assert(after[j] == before[j - 1]);
        } else {
            assert(after[i] == before[i - 1] && after[j] == before[j - 1]);
        }
    }
    assert forall|p: Seq<char>| after.contains(p) <==> (before.contains(p) || p == path@) by {
        if after.contains(p) {
            let k = choose|k: int| 0 <= k < after.len() && after[k] == p;
            if k < pos {
                assert(before[k] == p);
            } else if k > pos {
                assert(before[k - 1] == p);
            }
        }
        if before.contains(p) {
            let k = choose|k: int| 0 <= k < before.len() && before[k] == p;
            if k < pos {
                assert(after[k] == p);
            } else {
                assert(after[k + 1] == p);
            }
        }
        if p == path@ {
            assert(after[pos as int] == p);
        }
    }
}

/// Lists the paths to back up before the steps run: the resolved targets
/// of the steps that change a file in place, each once, in lexicographic
/// order.
pub fn backup_targets(steps: &Vec<InstallStep>, ctx: &InstallContext, advanced: bool) -> (paths:
    Vec<String>)
    ensures
        is_target_list(texts(paths@), steps@, *ctx, advanced),
{
    let mut paths: Vec<String> = Vec::new();
    let mut i: usize = 0;
    while i < steps.len()
        invariant
            i <= steps.len(),
            strictly_sorted(texts(paths@)),
            forall|p: Seq<char>|
                texts(paths@).contains(p) <==> is_backup_target(p, steps@, i as int, *ctx, advanced),
        decreases steps.len() - i,
    {
        let declared: Option<&String> = match &steps[i] {
            InstallStep::PatchBlock { file, .. } => Some(file),
            InstallStep::SetJsonValue { file, .. } => Some(file),
            InstallStep::Base64Embed { file, .. } => Some(file),
            _ => None,
        };
        let target: Option<String> = match declared {
            Some(file) => match resolve_target(ctx, file.as_str(), advanced) {
                Ok(path) => Some(path),
                Err(_) => None,
            },
            None => None,
        };
        assert(backup_target(steps@[i as int], *ctx, advanced) == match target {
            Some(path) => Some(path@),
            None => None,
        });
        match target {
            Some(path) => {
                insert_sorted(&mut paths, path);
            },
            None => {},
        }
        assert forall|p: Seq<char>| texts(paths@).contains(p) <==> is_backup_target(
            p,
            steps@,
            i + 1,
            *ctx,
            advanced,
        ) by {}
        i += 1;
    }
    paths
}

/// How far an install run has come.
#[derive(Debug, Clone, Copy, PartialEq, Eq, Structural)]
pub enum InstallState {
    /// Nothing has been done.
    NotStarted,
    /// The payload directory has been found.
    PayloadResolved,
    /// The files at risk have been backed up, or there are none.
    BackedUp,
    /// The step with this index is the next to carry out.
    Executing(usize),
    /// Every step has been carried out.
    Completed,
    /// The run was stopped; the steps that remained were not carried out.
    Failed,
}

/// The state that follows `state` when what was pending in it has gone
/// well (`ok`) or has not. A failure ends the run; `Completed` and
/// `Failed` are final. The steps are taken in order, one index after the
/// other, and the run completes after the last.
pub open spec fn next_state_spec(state: InstallState, ok: bool, step_count: usize) -> InstallState {
    match state {
        InstallState::Completed => InstallState::Completed,
        InstallState::Failed => InstallState::Failed,
        _ => if !ok {
            InstallState::Failed
        } else {
            match state {
                InstallState::NotStarted => InstallState::PayloadResolved,
                InstallState::PayloadResolved => InstallState::BackedUp,
                InstallState::BackedUp => if step_count == 0 {
                    InstallState::Completed
                } else {
                    InstallState::Executing(0)
                },
                InstallState::Executing(i) => if i + 1 < step_count {
                    InstallState::Executing((i + 1) as usize)
                } else {
                    InstallState::Completed
                },
                _ => state,
            }
        },
    }
}

/// Moves a run on, as [`next_state_spec`] says.
pub fn next_state(state: InstallState, ok: bool, step_count: usize) -> (next: InstallState)
    ensures
        next == next_state_spec(state, ok, step_count),
{
    match state {
        InstallState::Completed => InstallState::Completed,
        InstallState::Failed => InstallState::Failed,
        InstallState::NotStarted => if ok {
            InstallState::PayloadResolved
        } else {
            InstallState::Failed
        },
        InstallState::PayloadResolved => if ok {
            InstallState::BackedUp
        } else {
            InstallState::Failed
        },
        InstallState::BackedUp => if !ok {
            InstallState::Failed
        } else if step_count == 0 {
            InstallState::Completed
        } else {
            InstallState::Executing(0)
        },
        InstallState::Executing(i) => if !ok {
            InstallState::Failed
        } else if i < step_count && i + 1 < step_count {
            InstallState::Executing(i + 1)
        } else {
            InstallState::Completed
        },
    }
}

/// The state of a run of which `outcomes` have been reported, in order.
pub open spec fn state_after(outcomes: Seq<bool>, step_count: usize) -> InstallState
    decreases outcomes.len(),
{
    if outcomes.len() == 0 {
        InstallState::NotStarted
    } else {
        next_state_spec(state_after(outcomes.drop_last(), step_count), outcomes.last(), step_count)
    }
}

/// Whether every outcome that a run of `step_count` steps waits for, as
/// far as it has been reported, is a success: the payload, the backup,
/// the go-ahead, and each step.
pub open spec fn all_went_well(outcomes: Seq<bool>, step_count: usize) -> bool {
    forall|i: int| 0 <= i < outcomes.len() && i < step_count + 3 ==> outcomes[i]
}

/// Where a run stands after a number of successes and no failure.
pub open spec fn milestone(successes: nat, step_count: usize) -> InstallState {
    if successes >= step_count + 3 {
        InstallState::Completed
    } else if successes == 0 {
        InstallState::NotStarted
    } else if successes == 1 {
        InstallState::PayloadResolved
    } else if successes == 2 {
        InstallState::BackedUp
    } else {
        InstallState::Executing((successes - 3) as usize)
    }
}

/// A run fails exactly when something it waited for went wrong, and then
/// stays failed whatever is reported after. While all goes well it passes
/// the payload check, the backup and then the steps one by one in
/// manifest order, and it is completed exactly when the last step has
/// gone well.
pub proof fn lemma_run(outcomes: Seq<bool>, step_count: usize)
    ensures
        state_after(outcomes, step_count) == if all_went_well(outcomes, step_count) {
            milestone(outcomes.len(), step_count)
        } else {
            InstallState::Failed
        },
    decreases outcomes.len(),
{
    if outcomes.len() > 0 {
        let earlier = outcomes.drop_last();
        lemma_run(earlier, step_count);
        assert(forall|i: int| 0 <= i < earlier.len() ==> earlier[i] == outcomes[i]);
    }
}

/// What is to be done next in a run.
#[derive(Debug)]
pub enum InstallAction {
    /// Find out whether the payload directory exists.
    CheckPayload { path: String },
    /// Back these paths up below `backup_root`, those that exist.
    Backup { paths: Vec<String>, backup_root: String },
    /// Nothing needs doing here; go on.
    Proceed,
    /// Carry out the step with this index.
    Execute { index: usize, action: StepAction },
    /// Stop: the run cannot go on.
    Abort(InstallError),
    /// The run is over.
    Halt,
}

/// The mathematical form of an [`InstallAction`].
pub enum PendingModel {
    CheckPayload { path: Seq<char> },
    Backup { paths: Seq<Seq<char>>, backup_root: Seq<char> },
    Proceed,
    Execute { index: usize, action: StepModel },
    Abort(ErrorModel),
    Halt,
}

impl View for InstallAction {
    type V = PendingModel;

    open spec fn view(&self) -> PendingModel {
        match self {
            InstallAction::CheckPayload { path } => PendingModel::CheckPayload { path: path@ },
            InstallAction::Backup { paths, backup_root } => PendingModel::Backup {
                paths: texts(paths@),
                backup_root: backup_root@,
            },
            InstallAction::Proceed => PendingModel::Proceed,
            InstallAction::Execute { index, action } => PendingModel::Execute {
                index: *index,
                action: action@,
            },
            InstallAction::Abort(e) => PendingModel::Abort(e@),
            InstallAction::Halt => PendingModel::Halt,
        }
    }
}

/// The payload directory of a run: the manifest's payload directory,
/// normalised, below the directory of the manifest.
pub open spec fn payload_source_spec(manifest: InstallManifest, ctx: InstallContext) -> Result<
    Seq<char>,
    ErrorModel,
> {
    match normalized(manifest.payload_dir@, true) {
        Ok(rel) => Ok(joined_path(ctx.manifest_dir@, path_text(rel))),
        Err(e) => Err(ErrorModel::PathViolation { path: manifest.payload_dir@, error: e }),
    }
}

/// Resolves the payload directory of a run.
pub fn payload_source(manifest: &InstallManifest, ctx: &InstallContext) -> (r: Result<
    String,
    InstallError,
>)
    ensures
        text_result(r) == payload_source_spec(*manifest, *ctx),
{
    match manifest.payload_path() {
        Ok(rel) => Ok(rel.join_onto(ctx.manifest_dir.as_str())),
        Err(error) => Err(
            InstallError::PathViolation { path: manifest.payload_dir.clone(), error },
        ),
    }
}

/// Whether `action` is what a run in `state` has to do next.
///
/// Before anything else the payload directory is looked for. Then the
/// files that steps will change in place are backed up, into the
/// namespace of the application; with no such file there is no backup.
/// Then step after step is planned and carried out. A refused path stops
/// the run at the step that declares it.
pub open spec fn is_pending(
    action: PendingModel,
    manifest: InstallManifest,
    ctx: InstallContext,
    state: InstallState,
) -> bool {
    let steps = manifest.install_steps@;
    let advanced = manifest.is_advanced();
    match state {
        InstallState::NotStarted => match payload_source_spec(manifest, ctx) {
            Ok(path) => action == PendingModel::CheckPayload { path },
            Err(e) => action == PendingModel::Abort(e),
        },
        InstallState::PayloadResolved => match action {
            PendingModel::Backup { paths, backup_root } => {
                &&& paths.len() > 0
                &&& is_target_list(paths, steps, ctx, advanced)
                &&& backup_root == joined_path(ctx.backup_base@, namespace_of(manifest.app_name@))
            },
            PendingModel::Proceed => is_target_list(Seq::empty(), steps, ctx, advanced),
            _ => false,
        },
        InstallState::BackedUp => action == PendingModel::Proceed,
        InstallState::Executing(index) => if index < steps.len() {
            match payload_source_spec(manifest, ctx) {
                Err(e) => action == PendingModel::Abort(e),
                Ok(source) => match plan_spec(steps[index as int], ctx, source, advanced) {
                    Ok(planned) => action == PendingModel::Execute { index, action: planned },
                    Err(e) => action == PendingModel::Abort(e),
                },
            }
        } else {
            action == PendingModel::Halt
        },
        InstallState::Completed => action == PendingModel::Halt,
        InstallState::Failed => action == PendingModel::Halt,
    }
}

/// Names what a run in `state` has to do next.
pub fn pending_action(manifest: &InstallManifest, ctx: &InstallContext, state: InstallState) -> (action:
    InstallAction)
    ensures
        is_pending(action@, *manifest, *ctx, state),
{
    let advanced = manifest.advanced();
    match state {
        InstallState::NotStarted => match payload_source(manifest, ctx) {
            Ok(path) => InstallAction::CheckPayload { path },
            Err(e) => InstallAction::Abort(e),
        },
        InstallState::PayloadResolved => {
            let paths = backup_targets(&manifest.install_steps, ctx, advanced);
            if paths.len() == 0 {
                assert(texts(paths@) =~= Seq::<Seq<char>>::empty());
                InstallAction::Proceed
            } else {
                let namespace = backup_namespace(manifest.app_name.as_str());
                let backup_root = path_join(ctx.backup_base.as_str(), namespace.as_str());
                InstallAction::Backup { paths, backup_root }
            }
        },
        InstallState::BackedUp => InstallAction::Proceed,
        InstallState::Executing(index) => {
            if index < manifest.install_steps.len() {
                match payload_source(manifest, ctx) {
                    Err(e) => InstallAction::Abort(e),
                    Ok(source) => match plan_step(
                        &manifest.install_steps[index],
                        ctx,
                        source.as_str(),
                        advanced,
                    ) {
                        Ok(action) => InstallAction::Execute { index, action },
                        Err(e) => InstallAction::Abort(e),
                    },
                }
            } else {
                InstallAction::Halt
            }
        },
        InstallState::Completed => InstallAction::Halt,
        InstallState::Failed => InstallAction::Halt,
    }
}

/// Whether a run in `state` that hears `ok` has just learned that its
/// payload directory is missing, and which directory that is.
pub open spec fn missing_payload(
    manifest: InstallManifest,
    ctx: InstallContext,
    state: InstallState,
    ok: bool,
) -> Option<Seq<char>> {
    if state is NotStarted && !ok {
        match payload_source_spec(manifest, ctx) {
            Ok(path) => Some(path),
            Err(_) => None,
        }
    } else {
        None
    }
}

/// Moves a run on by one outcome and names what is to be done next: the
/// state that follows `state`, and what is pending in it. A run whose
/// payload directory was looked for and not found is told to stop for
/// that reason.
pub fn advance(manifest: &InstallManifest, ctx: &InstallContext, state: InstallState, ok: bool)
    -> (next: (InstallState, InstallAction))
    ensures
        next.0 == next_state_spec(state, ok, manifest.install_steps.len()),
        match missing_payload(*manifest, *ctx, state, ok) {
            Some(path) => next.1@ == PendingModel::Abort(ErrorModel::PayloadMissing { path }),
            None => is_pending(next.1@, *manifest, *ctx, next.0),
        },
{
    let next = next_state(state, ok, manifest.install_steps.len());
    match state {
        InstallState::NotStarted => if !ok {
            match payload_source(manifest, ctx) {
                Ok(path) => {
                    return (next, InstallAction::Abort(InstallError::PayloadMissing { path }));
                },
                Err(_) => {},
            }
        },
        _ => {},
    }
    let action = pending_action(manifest, ctx, next);
    (next, action)
}

/// A list that holds one path and nothing else, in strict order, is that
/// path alone.
pub proof fn lemma_single_target(paths: Seq<Seq<char>>, target: Seq<char>)
    requires
        strictly_sorted(paths),
        forall|p: Seq<char>| paths.contains(p) <==> p == target,
    ensures
        paths == seq![target],
{
    assert(paths.contains(target));
    assert(paths.contains(paths[0]));
    if paths.len() > 1 {
        assert(paths.contains(paths[1]));
        crate::text::lemma_lex_lt_irreflexive(target);
    }
}

/// What a run does for a manifest that copies one payload file and then
/// sets one value in a JSON file, both paths accepted.
///
/// The JSON file is the one path backed up, into the namespace of the
/// application, before anything is changed. The first step then copies
/// the payload file, from below the payload directory to the resolved
/// destination; the second sets the value in the resolved JSON file; and
/// when the payload check, the backup and both steps have gone well, the
/// run is completed.
pub proof fn lemma_copy_then_set_json(manifest: InstallManifest, ctx: InstallContext)
    requires
        manifest.install_steps@.len() == 2,
        manifest.install_steps@[0] is Copy,
        manifest.install_steps@[1] is SetJsonValue,
        payload_source_spec(manifest, ctx) is Ok,
        plan_spec(
            manifest.install_steps@[0],
            ctx,
            payload_source_spec(manifest, ctx)->Ok_0,
            manifest.is_advanced(),
        ) is Ok,
        plan_spec(
            manifest.install_steps@[1],
            ctx,
            payload_source_spec(manifest, ctx)->Ok_0,
            manifest.is_advanced(),
        ) is Ok,
    ensures
        ({
            let copy = manifest.install_steps@[0];
            let set = manifest.install_steps@[1];
            let payload = payload_source_spec(manifest, ctx)->Ok_0;
            let json_file = resolve_spec(ctx.manifest_dir@, set->SetJsonValue_file@, ctx.env);
            &&& forall|action: PendingModel| #[trigger]
                is_pending(action, manifest, ctx, InstallState::PayloadResolved) ==> action
                    == PendingModel::Backup {
                    paths: seq![json_file],
                    backup_root: joined_path(ctx.backup_base@, namespace_of(manifest.app_name@)),
                }
            &&& forall|action: PendingModel| #[trigger]
                is_pending(action, manifest, ctx, InstallState::Executing(0)) ==> action
                    == PendingModel::Execute {
                    index: 0,
                    action: StepModel::Copy {
                        source: joined_path(
                            payload,
                            path_text(normalized(copy->Copy_src@, false)->Ok_0),
                        ),
                        dest: resolve_spec(ctx.manifest_dir@, copy->Copy_dest@, ctx.env),
                    },
                }
            &&& forall|action: PendingModel| #[trigger]
                is_pending(action, manifest, ctx, InstallState::Executing(1)) ==> action
                    == PendingModel::Execute {
                    index: 1,
                    action: StepModel::SetJson {
                        target: json_file,
                        key_path: set->SetJsonValue_key_path@,
                        value: set->SetJsonValue_value@,
                    },
                }
            &&& state_after(seq![true, true, true, true, true], 2) == InstallState::Completed
        }),
{
    let steps = manifest.install_steps@;
    let advanced = manifest.is_advanced();
    let set = steps[1];
    let json_file = resolve_spec(ctx.manifest_dir@, set->SetJsonValue_file@, ctx.env);
    assert(backup_target(steps[1], ctx, advanced) == Some(json_file));
    assert forall|p: Seq<char>| is_backup_target(p, steps, 2, ctx, advanced) <==> p
        == json_file by {}
    assert forall|action: PendingModel| #[trigger]
        is_pending(action, manifest, ctx, InstallState::PayloadResolved) implies action
        == (PendingModel::Backup {
        paths: seq![json_file],
        backup_root: joined_path(ctx.backup_base@, namespace_of(manifest.app_name@)),
    }) by {
        match action {
            PendingModel::Backup { paths, backup_root } => {
                lemma_single_target(paths, json_file);
            },
            PendingModel::Proceed => {
                assert(Seq::<Seq<char>>::empty().contains(json_file));
            },
            _ => {},
        }
    }
    lemma_run(seq![true, true, true, true, true], 2);
}

} // verus!
