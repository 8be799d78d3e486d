//! The request coordinator: one classification request from text to result.
//!
//! A session owns everything one request needs: the candidate labels, the
//! chunks the text was segmented into, and the per-chunk scores gathered so
//! far. The surrounding runtime drains it chunk by chunk — hand the next
//! chunk to the inference backend, record what came back — and finally folds
//! all recorded scores into the request's result. A request with empty text
//! or an empty candidate set opens with no chunks at all, so the backend is
//! never invoked for it.

use vstd::prelude::*;

use crate::aggregate::{
    aggregate, chunk_views, entry_views, flat_entries, is_aggregation, lemma_aggregation_of_empty,
    result_views, Classification, LabelScore,
};
use crate::segment::{covers, segment, trimmed_nonempty, MAX_TOKENS};
use crate::text::{all_ws, normalize_spec, texts_of};

verus! {

/// A classification request: free text plus the caller's candidate labels,
/// which may repeat and are never normalized.
pub struct Classify {
    pub text: String,
    pub categories: Vec<String>,
}

/// A typed classification failure, surfaced to the coordinator's caller and
/// collapsed to a generic server error only at the boundary.
pub enum ClassificationError {
    /// The backend failed to load or an inference call on it failed.
    RuntimeError(String),
}

impl ClassificationError {
    /// The diagnostic message of this failure.
    pub fn message(&self) -> (m: &String)
        ensures
            match *self {
                ClassificationError::RuntimeError(s) => m@ == s@,
            },
    {
        match self {
            ClassificationError::RuntimeError(m) => m,
        }
    }
}

/// One classification request in flight: its chunks, its labels, and the
/// per-chunk scores recorded so far.
pub struct ClassificationSession {
    categories: Vec<String>,
    chunks: Vec<String>,
    cursor: usize,
    gathered: Vec<Vec<LabelScore>>,
}

impl ClassificationSession {
    /// The candidate labels, as the caller supplied them.
    pub closed spec fn labels(&self) -> Seq<Seq<char>> {
        texts_of(self.categories@)
    }

    /// The chunks of the normalized request text, in source order.
    pub closed spec fn chunk_seq(&self) -> Seq<Seq<char>> {
        texts_of(self.chunks@)
    }

    /// The per-chunk scores recorded so far, in the order they came.
    pub closed spec fn recorded(&self) -> Seq<Seq<(Seq<char>, u64)>> {
        chunk_views(self.gathered@)
    }

    /// How many chunks still await classification.
    pub closed spec fn pending(&self) -> int {
        self.chunks@.len() - self.cursor
    }

    /// Scores were recorded for exactly the chunks already handed out.
    pub closed spec fn wf(&self) -> bool {
        self.cursor <= self.chunks@.len() && self.gathered@.len() == self.cursor
    }

    /// Open a session for one request: normalize its text and segment it
    /// into chunks that tokenize within the backend's token budget. Empty
    /// text and an empty candidate set both open with no chunks, so no
    /// inference ever runs for such a request.
    pub fn start(request: Classify, tokenizer: &tokenizers::Tokenizer) -> (s:
        ClassificationSession)
        ensures
            s.wf(),
            s.labels() == texts_of(request.categories@),
            s.recorded() == Seq::<Seq<(Seq<char>, u64)>>::empty(),
            s.pending() == s.chunk_seq().len(),
            request.categories@.len() == 0 ==> s.chunk_seq().len() == 0,
            normalize_spec(request.text@).len() == 0 ==> s.chunk_seq().len() == 0,
            request.categories@.len() > 0 ==> covers(
                normalize_spec(request.text@),
                s.chunk_seq(),
            ),
            forall|k: int|
                0 <= k < s.chunk_seq().len() ==> trimmed_nonempty(#[trigger] s.chunk_seq()[k]),
            request.categories@.len() > 0 && !all_ws(normalize_spec(request.text@))
                ==> s.pending() > 0,
    {
        let Classify { text, categories } = request;
        let chunks: Vec<String> = if categories.len() == 0 {
            Vec::new()
        } else {
            segment(text.as_str(), MAX_TOKENS, tokenizer)
        };
        let s = ClassificationSession { categories, chunks, cursor: 0, gathered: Vec::new() };
        proof {
            assert(texts_of(Seq::<String>::empty()) =~= Seq::<Seq<char>>::empty());
            assert(chunk_views(Seq::<Vec<LabelScore>>::empty()) =~= Seq::<
                Seq<(Seq<char>, u64)>,
            >::empty());
        }
        s
    }

    /// The candidate labels, for the backend call.
    pub fn categories(&self) -> (c: &Vec<String>)
        ensures
            texts_of(c@) == self.labels(),
    {
        &self.categories
    }

    /// The next chunk awaiting classification, if any is left.
    pub fn next_chunk(&self) -> (c: Option<&String>)
        requires
            self.wf(),
        ensures
            match c {
                Some(t) => self.pending() > 0 && t@ == self.chunk_seq()[self.recorded().len() as int],
                None => self.pending() == 0,
            },
    {
        if self.cursor < self.chunks.len() {
            Some(&self.chunks[self.cursor])
        } else {
            None
        }
    }

    /// Record the backend's label scores for the chunk last handed out.
    pub fn record(&mut self, scores: Vec<LabelScore>)
        requires
            old(self).wf(),
            old(self).pending() > 0,
        ensures
            final(self).wf(),
            final(self).chunk_seq() == old(self).chunk_seq(),
            final(self).labels() == old(self).labels(),
            final(self).recorded() == old(self).recorded().push(entry_views(scores@)),
            final(self).pending() == old(self).pending() - 1,
    {
        let ghost pre = chunk_views(self.gathered@);
        let ghost sv = entry_views(scores@);
        self.gathered.push(scores);
        let n = self.chunks.len();
        proof {
            assert(self.cursor < n);
        }
        self.cursor = self.cursor + 1;
        proof {
            assert(chunk_views(self.gathered@) =~= pre.push(sv));
        }
    }

    /// Whether every chunk's scores have been recorded.
    pub fn is_done(&self) -> (done: bool)
        requires
            self.wf(),
        ensures
            done <==> self.pending() == 0,
    {
        self.cursor == self.chunks.len()
    }

    /// Fold everything recorded into the request's final result: per label
    /// the maximum score over all chunks, kept only above the confidence
    /// threshold. A request that recorded nothing — empty text, or no
    /// candidate labels — yields the empty result.
    pub fn finish(self) -> (r: Vec<Classification>)
        requires
            self.wf(),
            self.pending() == 0,
        ensures
            is_aggregation(flat_entries(self.recorded()), result_views(r@)),
            self.recorded().len() == 0 ==> r@.len() == 0,
    {
        let ClassificationSession { categories: _, chunks: _, cursor: _, gathered } = self;
        let r = aggregate(gathered);
        proof {
            if self.recorded().len() == 0 {
                assert(flat_entries(self.recorded()) =~= Seq::<(Seq<char>, u64)>::empty());
                lemma_aggregation_of_empty(result_views(r@));
            }
        }
        r
    }
}

} // verus!
