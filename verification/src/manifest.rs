//! The install plan: what a manifest declares.

use crate::json::JsonValue;
use crate::path::{normalize_rel_path, normalized, path_result, PathError, RelativePath};
use crate::text::{push_range, to_chars};
use vstd::prelude::*;

verus! {

/// One step of an install plan. Every path in a step is declared relative:
/// `src`, `content_file` and `input_file` to the payload directory, `dest`
/// and `file` to the directory of the manifest.
#[derive(Debug, Clone)]
pub enum InstallStep {
    /// Copies a file or a directory of the payload.
    Copy { src: String, dest: String },
    /// Replaces the text between two markers with the content of a
    /// payload file, after the replacements have been made in it.
    PatchBlock {
        file: String,
        start_marker: String,
        end_marker: String,
        content_file: Option<String>,
        replacements: Option<Vec<(String, String)>>,
    },
    /// Sets a value inside a JSON file at a dotted key path.
    SetJsonValue { file: String, key_path: String, value: JsonValue },
    /// Runs a command with its arguments and waits for it.
    RunCommand { command: String, args: Vec<String> },
    /// Replaces a placeholder in a text file with the base64 text of a
    /// payload file.
    Base64Embed { file: String, placeholder: String, input_file: String },
}

/// An install plan: what is installed, and the steps that install it, in
/// the order in which they run.
#[derive(Debug, Clone)]
pub struct InstallManifest {
    pub app_name: String,
    pub version: String,
    pub publisher: String,
    pub description: String,
    pub logo_path: Option<String>,
    pub advanced_mode: Option<bool>,
    pub targets: Vec<String>,
    pub payload_dir: String,
    pub install_steps: Vec<InstallStep>,
}

impl InstallManifest {
    /// Whether the manifest asks for advanced mode; it does not unless it
    /// says so.
    pub open spec fn is_advanced(&self) -> bool {
        self.advanced_mode == Some(true)
    }

    /// Whether the manifest asks for advanced mode.
    pub fn advanced(&self) -> (b: bool)
        ensures
            b == self.is_advanced(),
    {
        match self.advanced_mode {
            Some(flag) => flag,
            None => false,
        }
    }

    /// The payload directory, normalised: a path below the manifest's own
    /// place, never absolute and never through `..`. A blank payload
    /// directory is that place itself.
    pub fn payload_path(&self) -> (r: Result<RelativePath, PathError>)
        ensures
            path_result(r) == normalized(self.payload_dir@, true),
    {
        normalize_rel_path(self.payload_dir.as_str(), true)
    }
}

/// The byte-order mark that may stand at the start of a manifest file.
pub open spec fn byte_order_mark() -> char {
    '\u{feff}'
}

/// `content` without a leading byte-order mark.
pub open spec fn without_bom(content: Seq<char>) -> Seq<char> {
    if content.len() > 0 && content[0] == byte_order_mark() {
        content.drop_first()
    } else {
        content
    }
}

/// Drops the byte-order mark from the start of a manifest's text, if one
/// stands there.
pub fn strip_bom(content: &str) -> (out: String)
    ensures
        out@ == without_bom(content@),
{
    let chars = to_chars(content);
    let mut out = String::new();
    if chars.len() > 0 && chars[0] == '\u{feff}' {
        push_range(&mut out, &chars, 1, chars.len());
    } else {
        push_range(&mut out, &chars, 0, chars.len());
    }
    out
}

/// How many characters of a manifest an error message quotes.
pub const SNIPPET_LEN: usize = 50;

/// The start of `content`, as far as an error message quotes it.
pub open spec fn snippet(content: Seq<char>) -> Seq<char> {
    if content.len() <= SNIPPET_LEN {
        content
    } else {
        content.take(SNIPPET_LEN as int)
    }
}

/// The message for a manifest that could not be read as one: the cause,
/// and the first characters of the text.
pub fn parse_failure_message(cause: &str, content: &str) -> (message: String)
    ensures
        message@ == "Failed to parse manifest: "@ + cause@ + ". Content snippet: "@ + snippet(
            content@,
        ) + "..."@,
{
    let chars = to_chars(content);
    let shown: usize = if chars.len() <= SNIPPET_LEN {
        chars.len()
    } else {
        SNIPPET_LEN
    };
    let mut message = "Failed to parse manifest: ".to_owned();
    message.append(cause);
    message.append(". Content snippet: ");
    push_range(&mut message, &chars, 0, shown);
    message.append("...");
    message
}

} // verus!
