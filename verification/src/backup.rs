//! Backup and restore: where a snapshot of the files at risk goes, what
//! its restore index records, and what restoring the latest snapshot
//! copies back.
//!
//! The plans are made here; copying the files is the caller's work.

use crate::json::{
    find_key, lemma_member_index, lemma_member_index_is, lemma_object_view,
    lemma_with_member_distinct, member_index, member_models, names_distinct, parse_json,
    pretty_json, to_pretty_json, with_member, JsonModel, JsonValue,
};
use crate::path::{
    is_safe_char, joined_path, part_models, path_components, path_join, path_text,
    sanitize_component_name, sanitized, split_path, PartModel, PathPart, RelativePath,
};
use crate::text::{
    from_chars, lemma_lex_lt_prefix, lemma_lex_lt_transitive, lex_less, lex_lt, matches_at,
    occurs_at, same_text, texts, to_chars, trim_chars, trimmed,
};
use vstd::prelude::*;

verus! {

/// The namespace that holds the backups of an application: its name
/// without surrounding whitespace, each unsafe character replaced by `_`;
/// `default` for a blank name.
pub open spec fn namespace_of(app_name: Seq<char>) -> Seq<char> {
    let name = trimmed(app_name);
    if name.len() == 0 {
        "default"@
    } else {
        sanitized(name)
    }
}

/// Derives the backup namespace of an application from its name. The
/// namespace is a single safe directory name, never empty.
pub fn backup_namespace(app_name: &str) -> (out: String)
    ensures
        out@ == namespace_of(app_name@),
        out@.len() > 0,
        forall|i: int| 0 <= i < out@.len() ==> is_safe_char(#[trigger] out@[i]),
{
    let chars = to_chars(app_name);
    let name = trim_chars(&chars);
    if name.len() == 0 {
        proof {
            reveal_strlit("default");
        }
        return "default".to_owned();
    }
    let text = from_chars(&name);
    sanitize_component_name(text.as_str())
}

/// The names under which an absolute path is mirrored inside a backup:
/// `abs` first, then the path's prefix, made safe, and its ordinary
/// names; the root and any `.` or `..` are left out.
pub open spec fn mirror_segments(parts: Seq<PartModel>) -> Seq<Seq<char>>
    decreases parts.len(),
{
    if parts.len() == 0 {
        seq!["abs"@]
    } else {
        let before = mirror_segments(parts.drop_last());
        match parts.last() {
            PartModel::Prefix(p) => before.push(sanitized(p)),
            PartModel::Normal(n) => before.push(n),
            _ => before,
        }
    }
}

/// The mirror of a path, from its components.
pub fn mirror_parts(parts: &Vec<PathPart>) -> (mirror: RelativePath)
    ensures
        mirror@ == mirror_segments(part_models(parts@)),
        mirror@.len() > 0,
{
    let ghost models = part_models(parts@);
    let mut segments: Vec<String> = Vec::new();
    segments.push("abs".to_owned());
    let mut i: usize = 0;
    while i < parts.len()
        invariant
            i <= parts.len(),
            models == part_models(parts@),
            texts(segments@) == mirror_segments(models.take(i as int)),
            segments@.len() > 0,
        decreases parts.len() - i,
    {
        assert(models.take(i + 1).drop_last() == models.take(i as int));
        match &parts[i] {
            PathPart::Prefix(prefix) => {
                let safe = sanitize_component_name(prefix.as_str());
                segments.push(safe);
            },
            PathPart::Normal(name) => {
                segments.push(name.clone());
            },
            _ => {},
        }
        i += 1;
    }
    assert(models.take(i as int) == models);
    RelativePath { segments }
}

/// Where an absolute path is mirrored inside a backup directory, relative
/// to that directory.
pub fn backup_rel_path(path: &str) -> (mirror: RelativePath)
    ensures
        mirror@ == mirror_segments(path_components(path@)),
        mirror@.len() > 0,
{
    let parts = split_path(path);
    mirror_parts(&parts)
}

/// Whether a directory name is that of a backup.
pub open spec fn is_backup_name(name: Seq<char>) -> bool {
    occurs_at(name, "backup_"@, 0)
}

/// Whether `c` is a decimal digit.
pub open spec fn is_digit(c: char) -> bool {
    '0' <= c && c <= '9'
}

/// Whether `stamp` spells a time as `YYYYMMDD_HHMMSS`: fifteen
/// characters, an underscore between date and time, digits elsewhere.
/// Stamps of this form have one width and are zero padded.
pub open spec fn is_stamp(stamp: Seq<char>) -> bool {
    &&& stamp.len() == 15
    &&& stamp[8] == '_'
    &&& forall|i: int| 0 <= i < 15 && i != 8 ==> is_digit(#[trigger] stamp[i])
}

/// Two backup names stand in the order of their stamps.
pub proof fn lemma_backup_names_order(first: Seq<char>, second: Seq<char>)
    ensures
        lex_lt("backup_"@ + first, "backup_"@ + second) == lex_lt(first, second),
{
    lemma_lex_lt_prefix("backup_"@, first, second);
}

/// Why no snapshot is planned.
#[derive(Debug, Clone, Copy, PartialEq, Eq, Structural)]
pub enum BackupError {
    /// The time of the snapshot is not written as `YYYYMMDD_HHMMSS`.
    BadTimestamp,
}

impl BackupError {
    /// The error in words.
    pub fn message(&self) -> (text: String)
        ensures
            text@ == "Backup time must be written as YYYYMMDD_HHMMSS"@,
    {
        "Backup time must be written as YYYYMMDD_HHMMSS".to_owned()
    }
}

/// Whether `stamp` spells a time, as [`is_stamp`] says.
pub fn check_stamp(stamp: &str) -> (ok: bool)
    ensures
        ok == is_stamp(stamp@),
{
    let chars = to_chars(stamp);
    if chars.len() != 15 {
        return false;
    }
    let mut i: usize = 0;
    while i < 15
        invariant
            i <= 15,
            chars@ == stamp@,
            chars@.len() == 15,
            forall|j: int| 0 <= j < i && j != 8 ==> is_digit(#[trigger] chars@[j]),
            i > 8 ==> chars@[8] == '_',
        decreases 15 - i,
    {
        let c = chars[i];
        if i == 8 {
            if c != '_' {
                return false;
            }
        } else if !('0' <= c && c <= '9') {
            return false;
        }
        i += 1;
    }
    true
}

/// The name of the backup directory made at the time that `timestamp`
/// spells: `backup_` and the stamp. A stamp of another form gives no
/// name.
pub fn backup_dir_name(timestamp: &str) -> (r: Result<String, BackupError>)
    ensures
        match r {
            Ok(name) => is_stamp(timestamp@) && name@ == "backup_"@ + timestamp@ && is_backup_name(
                name@,
            ),
            Err(_) => !is_stamp(timestamp@),
        },
{
    if !check_stamp(timestamp) {
        return Err(BackupError::BadTimestamp);
    }
    let mut name = "backup_".to_owned();
    name.append(timestamp);
    assert(name@.subrange(0, "backup_"@.len() as int) == "backup_"@);
    Ok(name)
}

/// A path to back up that was found to exist: the path as the install
/// names it, its canonical absolute form, and whether it is a directory.
#[derive(Debug, Clone)]
pub struct BackupSource {
    pub path: String,
    pub canonical: String,
    pub is_dir: bool,
}

/// One copy to make: a file, or a directory with all that is in it.
#[derive(Debug, Clone, PartialEq, Eq)]
pub struct CopyJob {
    pub source: String,
    pub dest: String,
    pub is_dir: bool,
}

/// What a snapshot does: the directory it fills, the copies it makes, in
/// order, and the restore index it writes, to `index_file`, when the
/// copies are made. The index maps each mirror path to the path it was
/// copied from.
#[derive(Debug, Clone)]
pub struct BackupPlan {
    pub backup_dir: String,
    pub copies: Vec<CopyJob>,
    pub index: Vec<(String, String)>,
    pub index_file: String,
}

/// The file in a backup directory that holds the restore index.
pub open spec fn index_file_of(backup_dir: Seq<char>) -> Seq<char> {
    joined_path(backup_dir, "restore_map.json"@)
}

/// Names the file in a backup directory that holds the restore index.
pub fn restore_map_path(backup_dir: &str) -> (file: String)
    ensures
        file@ == index_file_of(backup_dir@),
{
    path_join(backup_dir, "restore_map.json")
}

/// The views of the entries of a restore index.
pub open spec fn index_models(index: Seq<(String, String)>) -> Seq<(Seq<char>, Seq<char>)> {
    index.map_values(|e: (String, String)| (e.0@, e.1@))
}

/// The mirror path of a canonical path, written out.
pub open spec fn mirror_text(canonical: Seq<char>) -> Seq<char> {
    path_text(mirror_segments(path_components(canonical)))
}

/// The restore index after the sources have been recorded in order: each
/// mirror path maps to the canonical path of the last source mirrored
/// there.
pub open spec fn index_after(sources: Seq<BackupSource>) -> Seq<(Seq<char>, Seq<char>)>
    decreases sources.len(),
{
    if sources.len() == 0 {
        Seq::empty()
    } else {
        with_member(
            index_after(sources.drop_last()),
            mirror_text(sources.last().canonical@),
            sources.last().canonical@,
        )
    }
}

/// Whether `plan` is the snapshot of `sources` into `backup_dir`.
pub open spec fn is_backup_of(plan: BackupPlan, sources: Seq<BackupSource>, backup_dir: Seq<char>)
    -> bool {
    &&& plan.backup_dir@ == backup_dir
    &&& plan.copies@.len() == sources.len()
    &&& forall|i: int|
        0 <= i < sources.len() ==> {
            &&& (#[trigger] plan.copies@[i]).source@ == sources[i].path@
            &&& plan.copies@[i].dest@ == joined_path(backup_dir, mirror_text(sources[i].canonical@))
            &&& plan.copies@[i].is_dir == sources[i].is_dir
        }
    &&& index_models(plan.index@) == index_after(sources)
    &&& plan.index_file@ == index_file_of(backup_dir)
}

/// Plans the snapshot of `sources` into the directory `dir_name` below
/// `backup_root`: each source is copied to its mirror path below that
/// directory and recorded in the restore index.
pub fn plan_backup(sources: &Vec<BackupSource>, backup_root: &str, dir_name: &str) -> (plan:
    BackupPlan)
    ensures
        is_backup_of(plan, sources@, joined_path(backup_root@, dir_name@)),
{
    let backup_dir = path_join(backup_root, dir_name);
    let mut copies: Vec<CopyJob> = Vec::new();
    let mut index: Vec<(String, String)> = Vec::new();
    let mut i: usize = 0;
    while i < sources.len()
        invariant
            i <= sources.len(),
            backup_dir@ == joined_path(backup_root@, dir_name@),
            copies@.len() == i,
            forall|j: int|
                0 <= j < i ==> {
                    &&& (#[trigger] copies@[j]).source@ == sources@[j].path@
                    &&& copies@[j].dest@ == joined_path(
                        backup_dir@,
                        mirror_text(sources@[j].canonical@),
                    )
                    &&& copies@[j].is_dir == sources@[j].is_dir
                },
            index_models(index@) == index_after(sources@.take(i as int)),
        decreases sources.len() - i,
    {
        assert(sources@.take(i + 1).drop_last() == sources@.take(i as int));
        let source = &sources[i];
        let mirror = backup_rel_path(source.canonical.as_str());
        let rel = mirror.to_path_string();
        let dest = path_join(backup_dir.as_str(), rel.as_str());
        copies.push(CopyJob { source: source.path.clone(), dest, is_dir: source.is_dir });
        let ghost before = index_models(index@);
        let found = find_key(&index, rel.as_str());
        proof {
            lemma_member_index(before, rel@, 0);
            if let Some(at) = found {
                lemma_member_index_is(before, rel@, 0, at as int);
            }
        }
        match found {
            Some(at) => {
                index.set(at, (rel, source.canonical.clone()));
            },
            None => {
                index.push((rel, source.canonical.clone()));
            },
        }
        i += 1;
    }
    assert(sources@.take(i as int) == sources@);
    let index_file = restore_map_path(backup_dir.as_str());
    BackupPlan { backup_dir, copies, index, index_file }
}

/// Plans the snapshot of `sources` that is taken at the local time that
/// `timestamp` spells as `YYYYMMDD_HHMMSS`: the backup directory is
/// `backup_` and the stamp, below `backup_root`. A stamp of another form
/// is refused and nothing is planned.
pub fn backup_files(sources: &Vec<BackupSource>, backup_root: &str, timestamp: &str) -> (r: Result<
    BackupPlan,
    BackupError,
>)
    ensures
        match r {
            Ok(plan) => is_stamp(timestamp@) && is_backup_of(
                plan,
                sources@,
                joined_path(backup_root@, "backup_"@ + timestamp@),
            ),
            Err(_) => !is_stamp(timestamp@),
        },
{
    match backup_dir_name(timestamp) {
        Ok(dir_name) => Ok(plan_backup(sources, backup_root, dir_name.as_str())),
        Err(e) => Err(e),
    }
}

/// The snapshot of a single path copies it to its mirror below the backup
/// directory, and its restore index is the one entry that maps the
/// mirror path to the canonical path.
pub proof fn lemma_single_source_backup(plan: BackupPlan, source: BackupSource, backup_dir: Seq<char>)
    requires
        is_backup_of(plan, seq![source], backup_dir),
    ensures
        plan.copies@.len() == 1,
        plan.copies@[0].source@ == source.path@,
        plan.copies@[0].dest@ == joined_path(backup_dir, mirror_text(source.canonical@)),
        index_models(plan.index@) == seq![(mirror_text(source.canonical@), source.canonical@)],
        restore_jobs(backup_dir, index_models(plan.index@)) == seq![
            (plan.copies@[0].dest@, source.canonical@),
        ],
{
    let sources = seq![source];
    assert(sources.drop_last() == Seq::<BackupSource>::empty());
    assert(index_after(sources.drop_last()) == Seq::<(Seq<char>, Seq<char>)>::empty());
    assert(index_after(sources) == seq![(mirror_text(source.canonical@), source.canonical@)]);
}

/// The restore index of a snapshot holds no mirror path twice.
pub proof fn lemma_index_names_distinct(sources: Seq<BackupSource>)
    ensures
        names_distinct(index_after(sources)),
    decreases sources.len(),
{
    if sources.len() > 0 {
        lemma_index_names_distinct(sources.drop_last());
        lemma_with_member_distinct(
            index_after(sources.drop_last()),
            mirror_text(sources.last().canonical@),
            sources.last().canonical@,
        );
    }
}

/// The backup roots in which a restore looks for backups, in the order
/// in which it tries them: the namespace of the application first, where
/// one is named, then the directory that holds the namespaces.
pub open spec fn restore_roots_spec(app_name: Option<Seq<char>>, backup_base: Seq<char>) -> Seq<
    Seq<char>,
> {
    match app_name {
        Some(name) => {
            let own = joined_path(backup_base, namespace_of(name));
            if own == backup_base {
                seq![backup_base]
            } else {
                seq![own, backup_base]
            }
        },
        None => seq![backup_base],
    }
}

/// Names the backup roots for a restore, in the order in which they are
/// to be tried; the first that holds a backup is restored from.
pub fn restore_roots(app_name: Option<&str>, backup_base: &str) -> (roots: Vec<String>)
    ensures
        texts(roots@) == restore_roots_spec(
            match app_name {
                Some(n) => Some(n@),
                None => None,
            },
            backup_base@,
        ),
{
    let mut roots: Vec<String> = Vec::new();
    match app_name {
        Some(name) => {
            let namespace = backup_namespace(name);
            let own = path_join(backup_base, namespace.as_str());
            if !same_text(own.as_str(), backup_base) {
                roots.push(own);
            }
        },
        None => {},
    }
    roots.push(backup_base.to_owned());
    roots
}

/// The JSON document of a restore index: one object, each mirror path a
/// member whose value is the path it was copied from.
pub open spec fn index_document(index: Seq<(Seq<char>, Seq<char>)>) -> JsonModel {
    JsonModel::Object(index.map_values(|e: (Seq<char>, Seq<char>)| (e.0, JsonModel::Text(e.1))))
}

/// The restore index that a JSON document spells, if it spells one: an
/// object all of whose members are strings.
pub open spec fn document_index(doc: JsonModel) -> Option<Seq<(Seq<char>, Seq<char>)>> {
    match doc {
        JsonModel::Object(members) => if forall|i: int|
            0 <= i < members.len() ==> (#[trigger] members[i]).1 is Text {
            Some(members.map_values(|m: (Seq<char>, JsonModel)| (m.0, m.1->Text_0)))
        } else {
            None
        },
        _ => None,
    }
}

/// Reading back the document of an index gives the index.
pub proof fn lemma_index_document_round_trip(index: Seq<(Seq<char>, Seq<char>)>)
    ensures
        document_index(index_document(index)) == Some(index),
{
}

/// Writes a restore index as indented JSON text.
pub fn restore_index_json(index: &Vec<(String, String)>) -> (r: Result<String, serde_json::Error>)
    ensures
        match r {
            Ok(text) => pretty_json(index_document(index_models(index@))) == Some(text@),
            Err(_) => pretty_json(index_document(index_models(index@))) is None,
        },
{
    let mut members: Vec<(String, JsonValue)> = Vec::new();
    let mut i: usize = 0;
    while i < index.len()
        invariant
            i <= index.len(),
            members@.len() == i,
            forall|j: int|
                0 <= j < i ==> (#[trigger] members@[j]).0@ == index@[j].0@ && members@[j].1@
                    == JsonModel::Text(index@[j].1@),
        decreases index.len() - i,
    {
        members.push((index[i].0.clone(), JsonValue::Text(index[i].1.clone())));
        i += 1;
    }
    proof {
        lemma_object_view(members);
        assert(member_models(members@) =~= index_document(index_models(index@))->Object_0);
    }
    to_pretty_json(&JsonValue::Object(members))
}

/// Why the latest backup cannot be restored.
#[derive(Debug)]
pub enum RestoreError {
    /// The backup root holds no backup directory.
    NoBackupsFound,
    /// The latest backup holds no restore index.
    RestoreMapMissing,
    /// The restore index is not JSON.
    Parse(serde_json::Error),
    /// The restore index is JSON, but not an object of strings.
    NotAnIndex,
}

/// What went wrong, without the details that only `serde_json` knows.
#[derive(PartialEq, Eq, Structural)]
pub enum RestoreFailure {
    NoBackupsFound,
    RestoreMapMissing,
    Parse,
    NotAnIndex,
}

impl RestoreError {
    /// The kind of the error.
    pub open spec fn kind(&self) -> RestoreFailure {
        match self {
            RestoreError::NoBackupsFound => RestoreFailure::NoBackupsFound,
            RestoreError::RestoreMapMissing => RestoreFailure::RestoreMapMissing,
            RestoreError::Parse(_) => RestoreFailure::Parse,
            RestoreError::NotAnIndex => RestoreFailure::NotAnIndex,
        }
    }
}

/// Whether `name` is the latest of the backups among `names`: a backup
/// name that stands in the list, with no backup name after it in
/// lexicographic order.
pub open spec fn is_latest_backup(names: Seq<Seq<char>>, name: Seq<char>) -> bool {
    &&& names.contains(name)
    &&& is_backup_name(name)
    &&& forall|j: int|
        0 <= j < names.len() && is_backup_name(#[trigger] names[j]) ==> !lex_lt(name, names[j])
}

/// Picks the latest backup among the directory names found below a backup
/// root: of the names that begin with `backup_`, the last in
/// lexicographic order, which is the most recent, since the time in a name
/// has a fixed width.
pub fn latest_backup(names: &Vec<String>) -> (r: Result<String, RestoreError>)
    ensures
        match r {
            Ok(name) => is_latest_backup(texts(names@), name@),
            Err(e) => e is NoBackupsFound && forall|j: int|
                0 <= j < names@.len() ==> !is_backup_name(#[trigger] texts(names@)[j]),
        },
{
    let prefix = to_chars("backup_");
    let mut best: Option<usize> = None;
    let mut best_chars: Vec<char> = Vec::new();
    let mut i: usize = 0;
    while i < names.len()
        invariant
            i <= names.len(),
            prefix@ == "backup_"@,
            match best {
                Some(b) => {
                    &&& b < i
                    &&& best_chars@ == names@[b as int]@
                    &&& is_backup_name(best_chars@)
                    &&& forall|j: int|
                        0 <= j < i && is_backup_name(#[trigger] texts(names@)[j]) ==> !lex_lt(
                            best_chars@,
                            texts(names@)[j],
                        )
                },
                None => forall|j: int|
                    0 <= j < i ==> !is_backup_name(#[trigger] texts(names@)[j]),
            },
        decreases names.len() - i,
    {
        let chars = to_chars(names[i].as_str());
        if matches_at(&chars, &prefix, 0) {
            let newer = match best {
                Some(_) => lex_less(&best_chars, &chars),
                None => true,
            };
            if newer {
                proof {
                    crate::text::lemma_lex_lt_irreflexive(chars@);
                    if best is Some {
                        assert forall|j: int|
                            0 <= j < i && is_backup_name(
                                #[trigger] texts(names@)[j],
                            ) implies !lex_lt(chars@, texts(names@)[j]) by {
                            if lex_lt(chars@, texts(names@)[j]) {
                                lemma_lex_lt_transitive(best_chars@, chars@, texts(names@)[j]);
                            }
                        }
                    }
                }
                best = Some(i);
                best_chars = chars;
            }
        }
        i += 1;
    }
    match best {
        Some(b) => {
            assert(texts(names@)[b as int] == names@[b as int]@);
            Ok(names[b].clone())
        },
        None => Err(RestoreError::NoBackupsFound),
    }
}

/// Picks the backup to restore from among the directory names found
/// below `backup_root`, and gives its name and its directory.
pub fn latest_backup_dir(backup_root: &str, names: &Vec<String>) -> (r: Result<
    (String, String),
    RestoreError,
>)
    ensures
        match r {
            Ok(found) => is_latest_backup(texts(names@), found.0@) && found.1@ == joined_path(
                backup_root@,
                found.0@,
            ),
            Err(e) => e is NoBackupsFound && forall|j: int|
                0 <= j < names@.len() ==> !is_backup_name(#[trigger] texts(names@)[j]),
        },
{
    match latest_backup(names) {
        Ok(name) => {
            let dir = path_join(backup_root, name.as_str());
            Ok((name, dir))
        },
        Err(e) => Err(e),
    }
}

/// One copy that a restore makes, where the source still exists.
#[derive(Debug, Clone, PartialEq, Eq)]
pub struct RestoreJob {
    pub source: String,
    pub dest: String,
}

/// The restore index that a text spells.
pub open spec fn read_index_spec(map_content: Option<Seq<char>>) -> Result<
    Seq<(Seq<char>, Seq<char>)>,
    RestoreFailure,
> {
    match map_content {
        None => Err(RestoreFailure::RestoreMapMissing),
        Some(text) => match crate::json::parsed_json(text) {
            None => Err(RestoreFailure::Parse),
            Some(doc) => match document_index(doc) {
                None => Err(RestoreFailure::NotAnIndex),
                Some(index) => Ok(index),
            },
        },
    }
}

/// Reads the restore index of a backup. `map_content` is the text of the
/// index file, or `None` where the backup holds none.
pub fn read_restore_index(map_content: Option<&str>) -> (r: Result<
    Vec<(String, String)>,
    RestoreError,
>)
    ensures
        match r {
            Ok(index) => read_index_spec(
                match map_content {
                    Some(c) => Some(c@),
                    None => None,
                },
            ) == Ok::<Seq<(Seq<char>, Seq<char>)>, RestoreFailure>(index_models(index@)),
            Err(e) => read_index_spec(
                match map_content {
                    Some(c) => Some(c@),
                    None => None,
                },
            ) == Err::<Seq<(Seq<char>, Seq<char>)>, RestoreFailure>(e.kind()),
        },
{
    let text = match map_content {
        Some(text) => text,
        None => {
            return Err(RestoreError::RestoreMapMissing);
        },
    };
    let doc = match parse_json(text) {
        Ok(doc) => doc,
        Err(e) => {
            return Err(RestoreError::Parse(e));
        },
    };
    match doc {
        JsonValue::Object(members) => {
            proof {
                lemma_object_view(members);
            }
            let ghost models = member_models(members@);
            let mut index: Vec<(String, String)> = Vec::new();
            let mut i: usize = 0;
            while i < members.len()
                invariant
                    i <= members.len(),
                    models == member_models(members@),
                    map_content == Some(text),
                    crate::json::parsed_json(text@) == Some(JsonModel::Object(models)),
                    index@.len() == i,
                    forall|j: int| 0 <= j < i ==> (#[trigger] models[j]).1 is Text,
                    forall|j: int|
                        0 <= j < i ==> (#[trigger] index@[j]).0@ == models[j].0 && index@[j].1@
                            == models[j].1->Text_0,
                decreases members.len() - i,
            {
                match &members[i].1 {
                    JsonValue::Text(place) => {
                        index.push((members[i].0.clone(), place.clone()));
                    },
                    _ => {
                        assert(!(models[i as int].1 is Text));
                        return Err(RestoreError::NotAnIndex);
                    },
                }
                i += 1;
            }
            assert(index_models(index@) =~= document_index(JsonModel::Object(models))->Some_0);
            Ok(index)
        },
        _ => Err(RestoreError::NotAnIndex),
    }
}

/// The copies that restoring from `index` makes: each entry's mirror,
/// below the backup directory, goes back to the path the entry names.
pub open spec fn restore_jobs(backup_dir: Seq<char>, index: Seq<(Seq<char>, Seq<char>)>) -> Seq<
    (Seq<char>, Seq<char>),
> {
    index.map_values(|e: (Seq<char>, Seq<char>)| (joined_path(backup_dir, e.0), e.1))
}

/// The views of a list of restore jobs.
pub open spec fn job_models(jobs: Seq<RestoreJob>) -> Seq<(Seq<char>, Seq<char>)> {
    jobs.map_values(|j: RestoreJob| (j.source@, j.dest@))
}

/// Plans a restore from the index of the backup in `backup_dir`.
pub fn plan_restore(backup_dir: &str, index: &Vec<(String, String)>) -> (jobs: Vec<RestoreJob>)
    ensures
        job_models(jobs@) == restore_jobs(backup_dir@, index_models(index@)),
{
    let mut jobs: Vec<RestoreJob> = Vec::new();
    let mut i: usize = 0;
    while i < index.len()
        invariant
            i <= index.len(),
            jobs@.len() == i,
            forall|j: int|
                0 <= j < i ==> (#[trigger] jobs@[j]).source@ == joined_path(
                    backup_dir@,
                    index@[j].0@,
                ) && jobs@[j].dest@ == index@[j].1@,
        decreases index.len() - i,
    {
        let source = path_join(backup_dir, index[i].0.as_str());
        jobs.push(RestoreJob { source, dest: index[i].1.clone() });
        i += 1;
    }
    jobs
}

/// What restoring a backup copies, from the text of its restore index.
pub open spec fn restore_spec(backup_dir: Seq<char>, map_content: Option<Seq<char>>) -> Result<
    Seq<(Seq<char>, Seq<char>)>,
    RestoreFailure,
> {
    match read_index_spec(map_content) {
        Ok(index) => Ok(restore_jobs(backup_dir, index)),
        Err(e) => Err(e),
    }
}

/// Plans the restore of the backup in `backup_dir`, the directory that
/// [`latest_backup_dir`] picked. `map_content` is the text of the file
/// that [`restore_map_path`] names there, or `None` where the backup
/// holds no such file. A job whose source has gone missing is to be
/// skipped.
pub fn restore_latest_backup(backup_dir: &str, map_content: Option<&str>) -> (r: Result<
    Vec<RestoreJob>,
    RestoreError,
>)
    ensures
        match r {
            Ok(jobs) => restore_spec(
                backup_dir@,
                match map_content {
                    Some(c) => Some(c@),
                    None => None,
                },
            ) == Ok::<Seq<(Seq<char>, Seq<char>)>, RestoreFailure>(job_models(jobs@)),
            Err(e) => restore_spec(
                backup_dir@,
                match map_content {
                    Some(c) => Some(c@),
                    None => None,
                },
            ) == Err::<Seq<(Seq<char>, Seq<char>)>, RestoreFailure>(e.kind()),
        },
{
    match read_restore_index(map_content) {
        Ok(index) => Ok(plan_restore(backup_dir, &index)),
        Err(e) => Err(e),
    }
}

/// The restore index of a snapshot holds an entry for the mirror path of
/// each source; the entry names the canonical path of the last source
/// mirrored there. The lemma answers with the entry's index and with
/// that source's.
pub proof fn lemma_index_holds_mirror(sources: Seq<BackupSource>, i: int) -> (found: (int, int))
    requires
        0 <= i < sources.len(),
    ensures
        0 <= found.0 < index_after(sources).len(),
        i <= found.1 < sources.len(),
        member_index(index_after(sources), mirror_text(sources[i].canonical@), 0) == Some(found.0),
        index_after(sources)[found.0].0 == mirror_text(sources[i].canonical@),
        index_after(sources)[found.0].1 == sources[found.1].canonical@,
        mirror_text(sources[found.1].canonical@) == mirror_text(sources[i].canonical@),
    decreases sources.len(),
{
    let earlier = sources.drop_last();
    let before = index_after(earlier);
    let last = sources.last();
    let last_key = mirror_text(last.canonical@);
    let index = index_after(sources);
    let key = mirror_text(sources[i].canonical@);
    lemma_member_index(before, last_key, 0);
    if i == sources.len() - 1 {
        match member_index(before, last_key, 0) {
            Some(k) => {
                lemma_member_index_is(index, key, 0, k);
                (k, i)
            },
            None => {
                lemma_member_index_is(index, key, 0, before.len() as int);
                (before.len() as int, i)
            },
        }
    } else {
        let (k, j) = lemma_index_holds_mirror(earlier, i);
        lemma_member_index(before, key, 0);
        lemma_member_index_is(index, key, 0, k);
        if last_key == key {
            (k, sources.len() - 1)
        } else {
            (k, j)
        }
    }
}

/// Restoring from a snapshot's own index undoes the snapshot's copies:
/// for each source that the snapshot copies, the restore plan holds a job
/// that copies from the very place the snapshot copied to, back to the
/// canonical path of a source mirrored at that place. That source is the
/// one copied, unless a later source has the same mirror path. The lemma
/// answers with the index of the job and with that source's.
pub proof fn lemma_restore_reverses_backup(
    plan: BackupPlan,
    sources: Seq<BackupSource>,
    backup_dir: Seq<char>,
    i: int,
) -> (found: (int, int))
    requires
        is_backup_of(plan, sources, backup_dir),
        0 <= i < sources.len(),
    ensures
        0 <= found.0 < restore_jobs(backup_dir, index_models(plan.index@)).len(),
        i <= found.1 < sources.len(),
        restore_jobs(backup_dir, index_models(plan.index@))[found.0].0 == plan.copies@[i].dest@,
        restore_jobs(backup_dir, index_models(plan.index@))[found.0].1
            == sources[found.1].canonical@,
        mirror_text(sources[found.1].canonical@) == mirror_text(sources[i].canonical@),
{
    lemma_index_holds_mirror(sources, i)
}

} // verus!
