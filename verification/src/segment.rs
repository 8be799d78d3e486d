//! Segmentation of normalized request text into token-budgeted chunks.
//!
//! A request text of any length is cut into contiguous chunks, each of which
//! tokenizes within the backend model's token budget, so that every chunk can
//! be classified on its own. The cutting itself is done by the `text_splitter`
//! crate, sized by the backend's `tokenizers` tokenizer; what this module
//! states and proves about it is the shape of the output: the chunks are
//! trimmed, nonempty substrings of the normalized text, in source order, and
//! only whitespace falls between them.

use vstd::prelude::*;

use crate::text::{all_ws, is_ws, normalize, normalize_spec, texts_of};

verus! {

/// The token budget of one chunk under the backend's tokenizer.
pub const MAX_TOKENS: usize = 512;

#[verifier::external_type_specification]
#[verifier::external_body]
pub struct ExTokenizer(tokenizers::Tokenizer);

/// Whether `chunks` covers `text` with no gaps apart from whitespace:
/// `text` is some whitespace, then the first chunk verbatim, and the rest of
/// `text` is covered by the remaining chunks in the same way; a text with no
/// chunks left holds nothing but whitespace.
pub open spec fn covers(text: Seq<char>, chunks: Seq<Seq<char>>) -> bool
    decreases chunks.len(),
{
    if chunks.len() == 0 {
        all_ws(text)
    } else {
        exists|i: int, j: int|
            #![trigger text.subrange(i, j)]
            0 <= i <= j <= text.len() && all_ws(text.take(i)) && chunks[0] == text.subrange(i, j)
                && covers(text.skip(j), chunks.drop_first())
    }
}

/// Whether a chunk is nonempty and carries no whitespace at either end.
pub open spec fn trimmed_nonempty(c: Seq<char>) -> bool {
    c.len() > 0 && !is_ws(c[0]) && !is_ws(c[c.len() - 1])
}

/// Relies on `text_splitter::TextSplitter::chunks`, over a configuration
/// built by `ChunkConfig::new(max_tokens).with_sizer(tokenizer.clone())` with
/// the default trimming on: every emitted chunk is a trimmed, nonempty
/// substring of `text`; chunks come in source order; and only whitespace lies
/// before, between or after them. The token budget is enforced through the
/// opaque `tokenizers::Tokenizer` value, so it is not stated here. The
/// splitter expects a tokenizer that can encode arbitrary text, as the
/// backend's tokenizer can.
#[verifier::external_body]
fn splitter_chunks(tokenizer: &tokenizers::Tokenizer, text: &str, max_tokens: usize) -> (r: Vec<
    String,
>)
    ensures
        covers(text@, texts_of(r@)),
        forall|k: int| 0 <= k < r@.len() ==> trimmed_nonempty(#[trigger] texts_of(r@)[k]),
{
    let config = text_splitter::ChunkConfig::new(max_tokens).with_sizer(tokenizer.clone());
    let splitter = text_splitter::TextSplitter::new(config);
    splitter.chunks(text).map(|c| c.to_string()).collect()
}

/// Segment `text` for classification: normalize it, then cut the normalized
/// text into chunks that each tokenize within `max_tokens` tokens under
/// `tokenizer`, preferring natural boundaries. An empty (or all-whitespace)
/// text yields no chunks at all.
pub fn segment(text: &str, max_tokens: usize, tokenizer: &tokenizers::Tokenizer) -> (chunks: Vec<
    String,
>)
    ensures
        covers(normalize_spec(text@), texts_of(chunks@)),
        forall|k: int| 0 <= k < chunks@.len() ==> trimmed_nonempty(#[trigger] texts_of(chunks@)[k]),
        normalize_spec(text@).len() == 0 ==> chunks@.len() == 0,
        !all_ws(normalize_spec(text@)) ==> chunks@.len() > 0,
{
    let normalized = normalize(text);
    if normalized.as_str().is_empty() {
        let empty: Vec<String> = Vec::new();
        proof {
            assert(texts_of(empty@) =~= Seq::<Seq<char>>::empty());
        }
        return empty;
    }
    splitter_chunks(tokenizer, normalized.as_str(), max_tokens)
}

} // verus!
