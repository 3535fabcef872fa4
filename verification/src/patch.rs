//! Replacing the block of text between two markers.

use crate::text::{
    find_chars, find_from, lemma_find_from, lemma_find_from_is, occurs_at, push_range,
    replace_all, replace_text, to_chars,
};
use vstd::prelude::*;

verus! {

/// Which of the two markers a text lacks.
#[derive(Debug, Clone, Copy, PartialEq, Eq, Structural)]
pub enum PatchError {
    /// The start marker does not occur in the text.
    StartMarkerNotFound,
    /// The end marker does not occur after the start marker.
    EndMarkerNotFound,
}

impl PatchError {
    /// The error in words.
    pub fn message(&self) -> (text: String)
        ensures
            text@ == match *self {
                PatchError::StartMarkerNotFound => "Start marker not found"@,
                PatchError::EndMarkerNotFound => "End marker not found"@,
            },
    {
        match self {
            PatchError::StartMarkerNotFound => "Start marker not found".to_owned(),
            PatchError::EndMarkerNotFound => "End marker not found".to_owned(),
        }
    }
}

/// Where the two markers stand: the index at which each begins.
pub struct Block {
    pub start: int,
    pub end: int,
}

/// The block that the markers delimit: the first occurrence of the start
/// marker, and the first occurrence of the end marker after the end of
/// the start marker.
pub open spec fn locate_spec(text: Seq<char>, start_marker: Seq<char>, end_marker: Seq<char>)
    -> Result<Block, PatchError> {
    match find_from(text, start_marker, 0) {
        None => Err(PatchError::StartMarkerNotFound),
        Some(start) => match find_from(text, end_marker, start + start_marker.len()) {
            None => Err(PatchError::EndMarkerNotFound),
            Some(end) => Ok(Block { start, end }),
        },
    }
}

/// The text between the two markers.
pub open spec fn between_markers(text: Seq<char>, start_marker: Seq<char>, end_marker: Seq<char>)
    -> Option<Seq<char>> {
    match locate_spec(text, start_marker, end_marker) {
        Ok(block) => Some(text.subrange(block.start + start_marker.len(), block.end)),
        Err(_) => None,
    }
}

/// The text with what stands between the markers replaced by `content`.
/// With `strip_markers` the markers go too; without it they stay, and
/// `content` stands right after the start marker and right before the end
/// marker.
pub open spec fn patch_spec(
    text: Seq<char>,
    start_marker: Seq<char>,
    end_marker: Seq<char>,
    content: Seq<char>,
    strip_markers: bool,
) -> Result<Seq<char>, PatchError> {
    match locate_spec(text, start_marker, end_marker) {
        Err(e) => Err(e),
        Ok(block) => Ok(
            if strip_markers {
                text.subrange(0, block.start) + content + text.subrange(
                    block.end + end_marker.len(),
                    text.len() as int,
                )
            } else {
                text.subrange(0, block.start + start_marker.len()) + content + text.subrange(
                    block.end,
                    text.len() as int,
                )
            },
        ),
    }
}

/// A located block lies inside the text, the start marker before the end
/// marker, and both markers stand where the block says.
pub proof fn lemma_block_bounds(text: Seq<char>, start_marker: Seq<char>, end_marker: Seq<char>)
    ensures
        locate_spec(text, start_marker, end_marker) matches Ok(block) ==> {
            &&& 0 <= block.start
            &&& block.start + start_marker.len() <= block.end
            &&& block.end + end_marker.len() <= text.len()
            &&& occurs_at(text, start_marker, block.start)
            &&& occurs_at(text, end_marker, block.end)
        },
{
    lemma_find_from(text, start_marker, 0);
    match find_from(text, start_marker, 0) {
        Some(start) => {
            lemma_find_from(text, end_marker, start + start_marker.len());
        },
        None => {},
    }
}

/// Patching with the markers kept, then looking for the same two markers
/// in the result, finds between them exactly the content that was put
/// there, provided the end marker does not begin inside that content: an
/// end marker that does would be found first.
pub proof fn lemma_patch_round_trip(
    text: Seq<char>,
    start_marker: Seq<char>,
    end_marker: Seq<char>,
    content: Seq<char>,
)
    requires
        locate_spec(text, start_marker, end_marker) is Ok,
        ({
            let block = locate_spec(text, start_marker, end_marker)->Ok_0;
            let patched = patch_spec(text, start_marker, end_marker, content, false)->Ok_0;
            let from = block.start + start_marker.len();
            forall|k: int| from <= k < from + content.len() ==> !occurs_at(patched, end_marker, k)
        }),
    ensures
        between_markers(
            patch_spec(text, start_marker, end_marker, content, false)->Ok_0,
            start_marker,
            end_marker,
        ) == Some(content),
{
    let block = locate_spec(text, start_marker, end_marker)->Ok_0;
    let patched = patch_spec(text, start_marker, end_marker, content, false)->Ok_0;
    let from = block.start + start_marker.len();
    let head = text.subrange(0, from);
    let tail = text.subrange(block.end, text.len() as int);
    lemma_block_bounds(text, start_marker, end_marker);
    lemma_find_from(text, start_marker, 0);
    // The start marker is found where it was.
    assert(patched.subrange(block.start, from) =~= text.subrange(block.start, from));
    assert forall|j: int| 0 <= j < block.start implies !occurs_at(patched, start_marker, j) by {
        if occurs_at(patched, start_marker, j) {
            assert(patched.subrange(j, j + start_marker.len()) =~= text.subrange(
                j,
                j + start_marker.len(),
            ));
            assert(occurs_at(text, start_marker, j));
        }
    }
    lemma_find_from_is(patched, start_marker, 0, block.start);
    // The end marker is found right after the content.
    let end = from + content.len();
    assert(patched.subrange(end, end + end_marker.len()) =~= text.subrange(
        block.end,
        block.end + end_marker.len(),
    ));
    lemma_find_from_is(patched, end_marker, from, end);
}

/// Finds the two markers in a text.
pub fn locate_block(text: &Vec<char>, start_marker: &Vec<char>, end_marker: &Vec<char>) -> (r:
    Result<(usize, usize), PatchError>)
    ensures
        match r {
            Ok(found) => locate_spec(text@, start_marker@, end_marker@) == Ok::<Block, PatchError>(
                Block { start: found.0 as int, end: found.1 as int },
            ) && found.0 + start_marker.len() <= found.1 && found.1 + end_marker.len()
                <= text.len(),
            Err(e) => locate_spec(text@, start_marker@, end_marker@) == Err::<Block, PatchError>(e),
        },
{
    proof {
        lemma_block_bounds(text@, start_marker@, end_marker@);
        lemma_find_from(text@, start_marker@, 0);
    }
    match find_chars(text, start_marker, 0) {
        None => Err(PatchError::StartMarkerNotFound),
        Some(start) => {
            let from = start + start_marker.len();
            match find_chars(text, end_marker, from) {
                None => Err(PatchError::EndMarkerNotFound),
                Some(end) => Ok((start, end)),
            }
        },
    }
}

/// Computes the patched content of a file: what stands between the first
/// `start_marker` and the first `end_marker` after it is replaced by
/// `content`. Everything outside the block stays as it is. With
/// `strip_markers` the two markers are removed as well.
pub fn patch_file(
    file_content: &str,
    start_marker: &str,
    end_marker: &str,
    content: &str,
    strip_markers: bool,
) -> (r: Result<String, PatchError>)
    ensures
        match r {
            Ok(patched) => patch_spec(
                file_content@,
                start_marker@,
                end_marker@,
                content@,
                strip_markers,
            ) == Ok::<Seq<char>, PatchError>(patched@),
            Err(e) => patch_spec(
                file_content@,
                start_marker@,
                end_marker@,
                content@,
                strip_markers,
            ) == Err::<Seq<char>, PatchError>(e),
        },
{
    let text = to_chars(file_content);
    let start_chars = to_chars(start_marker);
    let end_chars = to_chars(end_marker);
    match locate_block(&text, &start_chars, &end_chars) {
        Err(e) => Err(e),
        Ok((start, end)) => {
            let mut patched = String::new();
            if strip_markers {
                push_range(&mut patched, &text, 0, start);
            } else {
                push_range(&mut patched, &text, 0, start + start_chars.len());
            }
            patched.append(content);
            if strip_markers {
                push_range(&mut patched, &text, end + end_chars.len(), text.len());
            } else {
                push_range(&mut patched, &text, end, text.len());
            }
            Ok(patched)
        },
    }
}

/// The views of a list of replacements.
pub open spec fn replacement_models(replacements: Seq<(String, String)>) -> Seq<
    (Seq<char>, Seq<char>),
> {
    replacements.map_values(|r: (String, String)| (r.0@, r.1@))
}

/// `content` after the replacements have been made one after the other,
/// each on the result of the one before.
pub open spec fn replaced_in_turn(content: Seq<char>, replacements: Seq<(Seq<char>, Seq<char>)>)
    -> Seq<char>
    decreases replacements.len(),
{
    if replacements.len() == 0 {
        content
    } else {
        replace_all(
            replaced_in_turn(content, replacements.drop_last()),
            replacements.last().0,
            replacements.last().1,
        )
    }
}

/// Makes each replacement in turn: every occurrence of the first string of
/// a pair becomes the second.
pub fn apply_replacements(content: &str, replacements: &Vec<(String, String)>) -> (out: String)
    ensures
        out@ == replaced_in_turn(content@, replacement_models(replacements@)),
{
    let ghost models = replacement_models(replacements@);
    let mut out = content.to_owned();
    let mut i: usize = 0;
    while i < replacements.len()
        invariant
            i <= replacements.len(),
            models == replacement_models(replacements@),
            out@ == replaced_in_turn(content@, models.take(i as int)),
        decreases replacements.len() - i,
    {
        assert(models.take(i + 1).drop_last() == models.take(i as int));
        out = replace_text(out.as_str(), replacements[i].0.as_str(), replacements[i].1.as_str());
        i += 1;
    }
    assert(models.take(i as int) == models);
    out
}

} // verus!
