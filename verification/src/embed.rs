//! Embedding binary data into a text template as base64.

use crate::text::{replace_all, replace_text};
use base64::Engine;
use vstd::prelude::*;

verus! {

/// The standard base64 encoding of a sequence of bytes, with padding.
pub uninterp spec fn base64_text(bytes: Seq<u8>) -> Seq<char>;

/// Whether the encoding of `len` bytes has a length that fits the
/// machine: the encoder gives up on longer inputs.
pub open spec fn encodable_len(len: nat) -> bool {
    len / 3 * 4 + 4 <= usize::MAX
}

/// `Engine::encode` on the `STANDARD` engine gives the base64 text of the
/// bytes; the text depends on the bytes alone. It panics where the length
/// of the text cannot be held in a `usize`.
#[verifier::external_body]
pub(crate) fn encode_base64(bytes: &[u8]) -> (encoded: String)
    requires
        encodable_len(bytes@.len()),
    ensures
        encoded@ == base64_text(bytes@),
{
    base64::engine::general_purpose::STANDARD.encode(bytes)
}

/// Computes the content of a template after embedding: every occurrence
/// of `placeholder` in `target_content` is replaced by the base64 text of
/// `input`.
pub fn base64_embed(target_content: &str, placeholder: &str, input: &[u8]) -> (out: String)
    requires
        encodable_len(input@.len()),
    ensures
        out@ == replace_all(target_content@, placeholder@, base64_text(input@)),
{
    let encoded = encode_base64(input);
    replace_text(target_content, placeholder, encoded.as_str())
}

} // verus!
