//! Merging per-chunk label scores into one classification result.
//!
//! Every label score produced for any chunk of one request is folded into a
//! single result set: entries at or below the confidence threshold are
//! discarded, and of all surviving entries that share a label string exactly
//! one survives, the one with the maximum score.
//!
//! Scores are fixed-point numbers: a score of `SCORE_SCALE` stands for a
//! relevance of 1.0, so `s` stands for `s / SCORE_SCALE`.

use vstd::prelude::*;

verus! {

/// One unit of score per full relevance: scores are in millionths.
pub const SCORE_SCALE: u64 = 1_000_000;

/// The confidence threshold, in millionths: an entry survives aggregation
/// only when its score is strictly greater than this (0.75).
pub const CONFIDENCE_THRESHOLD: u64 = 750_000;

/// Relevance of one label to one chunk, as the inference backend reports it.
pub struct LabelScore {
    /// The candidate label, exactly as the caller supplied it.
    pub label: String,
    /// Relevance in `[0, SCORE_SCALE]`, in millionths.
    pub score: u64,
}

/// The winning score for one label across a whole request.
pub struct Classification {
    /// The label, exactly as the caller supplied it.
    pub label: String,
    /// The maximum score this label reached on any chunk, in millionths.
    pub score: u64,
}

/// The mathematical content of one entry: its label text and its score.
pub open spec fn entry_views(v: Seq<LabelScore>) -> Seq<(Seq<char>, u64)> {
    v.map(|i: int, e: LabelScore| (e.label@, e.score))
}

/// The mathematical content of one result entry.
pub open spec fn result_views(v: Seq<Classification>) -> Seq<(Seq<char>, u64)> {
    v.map(|i: int, c: Classification| (c.label@, c.score))
}

/// The entry lists of all chunks, as mathematical values.
pub open spec fn chunk_views(s: Seq<Vec<LabelScore>>) -> Seq<Seq<(Seq<char>, u64)>> {
    s.map(|i: int, v: Vec<LabelScore>| entry_views(v@))
}

/// All entries of all chunks, flattened in chunk order.
pub open spec fn flat_entries(s: Seq<Seq<(Seq<char>, u64)>>) -> Seq<(Seq<char>, u64)>
    decreases s.len(),
{
    if s.len() == 0 {
        Seq::empty()
    } else {
        flat_entries(s.drop_last()) + s.last()
    }
}

/// Whether an entry survives the confidence threshold.
pub open spec fn qualifies(e: (Seq<char>, u64)) -> bool {
    e.1 > CONFIDENCE_THRESHOLD
}

/// Whether some entry with label `label` survives the threshold.
pub open spec fn has_qualifying(entries: Seq<(Seq<char>, u64)>, label: Seq<char>) -> bool {
    exists|i: int|
        0 <= i < entries.len() && #[trigger] entries[i].0 == label && entries[i].1
            > CONFIDENCE_THRESHOLD
}

/// Whether `score` is attained by some entry with label `label` and is at
/// least every score any entry gives that label.
pub open spec fn is_max_for(entries: Seq<(Seq<char>, u64)>, label: Seq<char>, score: u64) -> bool {
    &&& exists|i: int|
        0 <= i < entries.len() && #[trigger] entries[i].0 == label && entries[i].1 == score
    &&& forall|i: int|
        0 <= i < entries.len() && #[trigger] entries[i].0 == label ==> entries[i].1 <= score
}

/// What it means for `out` to be the aggregation of `entries`:
/// every output entry is above the confidence threshold; no two output
/// entries share a label; every output score is the maximum score its label
/// attained; and every label with a qualifying entry appears in the output.
pub open spec fn is_aggregation(
    entries: Seq<(Seq<char>, u64)>,
    out: Seq<(Seq<char>, u64)>,
) -> bool {
    &&& forall|i: int| 0 <= i < out.len() ==> (#[trigger] out[i]).1 > CONFIDENCE_THRESHOLD
    &&& forall|i: int, j: int| 0 <= i < j < out.len() ==> out[i].0 != out[j].0
    &&& forall|i: int| 0 <= i < out.len() ==> is_max_for(entries, (#[trigger] out[i]).0, out[i].1)
    &&& forall|l: Seq<char>|
        has_qualifying(entries, l) ==> exists|i: int| 0 <= i < out.len() && (#[trigger] out[i]).0 == l
}

/// Whether some entry of `r` carries exactly this label and score.
pub open spec fn contains_entry(r: Seq<(Seq<char>, u64)>, label: Seq<char>, score: u64) -> bool {
    exists|i: int| 0 <= i < r.len() && #[trigger] r[i] == (label, score)
}

/// Copy one backend entry.
fn copy_entry(e: &LabelScore) -> (r: LabelScore)
    ensures
        r.label@ == e.label@,
        r.score == e.score,
{
    LabelScore { label: e.label.clone(), score: e.score }
}

/// Flatten the per-chunk entry lists into one list, in chunk order.
fn flatten_chunks(per_chunk: &Vec<Vec<LabelScore>>) -> (r: Vec<LabelScore>)
    ensures
        entry_views(r@) == flat_entries(chunk_views(per_chunk@)),
{
    let mut r: Vec<LabelScore> = Vec::new();
    let mut i: usize = 0;
    while i < per_chunk.len()
        invariant
            i <= per_chunk@.len(),
            entry_views(r@) == flat_entries(chunk_views(per_chunk@).take(i as int)),
        decreases per_chunk@.len() - i,
    {
        let chunk = &per_chunk[i];
        let mut j: usize = 0;
        while j < chunk.len()
            invariant
                i < per_chunk@.len(),
                j <= chunk@.len(),
                chunk == &per_chunk@[i as int],
                entry_views(r@) == flat_entries(chunk_views(per_chunk@).take(i as int))
                    + entry_views(chunk@).take(j as int),
            decreases chunk@.len() - j,
        {
            let e = copy_entry(&chunk[j]);
            let ghost pre = entry_views(r@);
            r.push(e);
            proof {
                assert(entry_views(r@) =~= pre.push((e.label@, e.score)));
                assert(entry_views(chunk@)[j as int] == (e.label@, e.score));
                assert(entry_views(chunk@).take(j + 1) =~= entry_views(chunk@).take(j as int).push(
                    entry_views(chunk@)[j as int],
                ));
                assert(entry_views(r@) =~= flat_entries(chunk_views(per_chunk@).take(i as int))
                    + entry_views(chunk@).take(j + 1));
            }
            j = j + 1;
        }
        proof {
            let cv = chunk_views(per_chunk@);
            assert(cv.take(i + 1).drop_last() =~= cv.take(i as int));
            assert(cv.take(i + 1).last() == cv[i as int]);
            assert(entry_views(chunk@).take(j as int) =~= entry_views(chunk@));
            assert(entry_views(r@) =~= flat_entries(cv.take(i + 1)));
        }
        i = i + 1;
    }
    proof {
        assert(chunk_views(per_chunk@).take(per_chunk@.len() as int) =~= chunk_views(per_chunk@));
    }
    r
}

/// Find the position of `label` among the results gathered so far.
fn find_label(out: &Vec<Classification>, label: &String) -> (pos: Option<usize>)
    ensures
        match pos {
            Some(k) => k < out@.len() && out@[k as int].label@ == label@,
            None => forall|j: int| 0 <= j < out@.len() ==> (#[trigger] out@[j]).label@ != label@,
        },
{
    let mut k: usize = 0;
    while k < out.len()
        invariant
            k <= out@.len(),
            forall|j: int| 0 <= j < k ==> (#[trigger] out@[j]).label@ != label@,
        decreases out@.len() - k,
    {
        if out[k].label == *label {
            return Some(k);
        }
        k = k + 1;
    }
    None
}

/// Merge the per-chunk label scores of one request into its final result.
///
/// Entries scoring at or below the confidence threshold are discarded; of
/// the surviving entries each distinct label keeps exactly one result entry,
/// carrying the maximum score that label attained on any chunk. The order of
/// the result carries no meaning.
pub fn aggregate(per_chunk: Vec<Vec<LabelScore>>) -> (r: Vec<Classification>)
    ensures
        is_aggregation(flat_entries(chunk_views(per_chunk@)), result_views(r@)),
{
    let entries = flatten_chunks(&per_chunk);
    let ghost es = entry_views(entries@);
    let mut out: Vec<Classification> = Vec::new();
    let mut i: usize = 0;
    while i < entries.len()
        invariant
            i <= entries@.len(),
            es == entry_views(entries@),
            is_aggregation(es.take(i as int), result_views(out@)),
        decreases entries@.len() - i,
    {
        let ghost prev = es.take(i as int);
        let ghost cur = es.take(i + 1);
        let e = &entries[i];
        proof {
            assert(cur =~= prev.push(es[i as int]));
            assert(es[i as int] == (entries@[i as int].label@, entries@[i as int].score));
            assert(forall|j: int| 0 <= j < out@.len() ==> result_views(out@)[j] == (
                out@[j].label@,
                out@[j].score,
            ));
        }
        if e.score > CONFIDENCE_THRESHOLD {
            match find_label(&out, &e.label) {
                Some(k) => {
                    if e.score > out[k].score {
                        let replacement = Classification {
                            label: e.label.clone(),
                            score: e.score,
                        };
                        proof {
                            lemma_update_keeps_aggregation(
                                prev,
                                result_views(out@),
                                k as int,
                                es[i as int],
                            );
                            assert(result_views(out@.update(k as int, replacement)) =~= result_views(
                                out@,
                            ).update(k as int, (replacement.label@, replacement.score)));
                        }
                        out.set(k, replacement);
                    } else {
                        proof {
                            lemma_existing_keeps_aggregation(
                                prev,
                                result_views(out@),
                                k as int,
                                es[i as int],
                            );
                        }
                    }
                },
                None => {
                    let addition = Classification { label: e.label.clone(), score: e.score };
                    proof {
                        lemma_push_keeps_aggregation(prev, result_views(out@), es[i as int]);
                        assert(result_views(out@.push(addition)) =~= result_views(out@).push(
                            (addition.label@, addition.score),
                        ));
                    }
                    out.push(addition);
                },
            }
        } else {
            proof {
                lemma_skip_keeps_aggregation(prev, result_views(out@), es[i as int]);
            }
        }
        i = i + 1;
    }
    proof {
        assert(es.take(entries@.len() as int) =~= es);
    }
    out
}

/// Appending an entry at or below the threshold changes no aggregation.
proof fn lemma_skip_keeps_aggregation(
    prev: Seq<(Seq<char>, u64)>,
    out: Seq<(Seq<char>, u64)>,
    e: (Seq<char>, u64),
)
    requires
        is_aggregation(prev, out),
        !qualifies(e),
    ensures
        is_aggregation(prev.push(e), out),
{
    let cur = prev.push(e);
    assert(forall|j: int| 0 <= j < prev.len() ==> cur[j] == prev[j]);
    assert forall|i: int| 0 <= i < out.len() implies is_max_for(cur, (#[trigger] out[i]).0, out[i].1) by {
        assert(is_max_for(prev, out[i].0, out[i].1));
        let w = choose|w: int|
            0 <= w < prev.len() && #[trigger] prev[w].0 == out[i].0 && prev[w].1 == out[i].1;
        assert(cur[w].0 == out[i].0 && cur[w].1 == out[i].1);
        assert forall|j: int| 0 <= j < cur.len() && #[trigger] cur[j].0 == out[i].0 implies cur[j].1
            <= out[i].1 by {
            if j < prev.len() {
                assert(prev[j].0 == out[i].0);
            } else {
                assert(cur[j] == e);
                assert(out[i].1 > CONFIDENCE_THRESHOLD);
            }
        }
    }
    assert forall|l: Seq<char>| has_qualifying(cur, l) implies exists|i: int|
        0 <= i < out.len() && (#[trigger] out[i]).0 == l by {
        let w = choose|w: int|
            0 <= w < cur.len() && #[trigger] cur[w].0 == l && cur[w].1 > CONFIDENCE_THRESHOLD;
        assert(w < prev.len());
        assert(has_qualifying(prev, l));
    }
}

/// Appending a qualifying entry whose label already holds a score at least
/// as high changes no aggregation.
proof fn lemma_existing_keeps_aggregation(
    prev: Seq<(Seq<char>, u64)>,
    out: Seq<(Seq<char>, u64)>,
    k: int,
    e: (Seq<char>, u64),
)
    requires
        is_aggregation(prev, out),
        qualifies(e),
        0 <= k < out.len(),
        out[k].0 == e.0,
        e.1 <= out[k].1,
    ensures
        is_aggregation(prev.push(e), out),
{
    let cur = prev.push(e);
    assert(forall|j: int| 0 <= j < prev.len() ==> cur[j] == prev[j]);
    assert forall|i: int| 0 <= i < out.len() implies is_max_for(cur, (#[trigger] out[i]).0, out[i].1) by {
        assert(is_max_for(prev, out[i].0, out[i].1));
        let w = choose|w: int|
            0 <= w < prev.len() && #[trigger] prev[w].0 == out[i].0 && prev[w].1 == out[i].1;
        assert(cur[w].0 == out[i].0 && cur[w].1 == out[i].1);
        assert forall|j: int| 0 <= j < cur.len() && #[trigger] cur[j].0 == out[i].0 implies cur[j].1
            <= out[i].1 by {
            if j < prev.len() {
                assert(prev[j].0 == out[i].0);
            } else {
                assert(cur[j] == e);
                if i != k {
                    assert(out[i].0 == e.0 && out[k].0 == e.0);
                    if i < k {
                        assert(out[i].0 != out[k].0);
                    } else {
                        assert(out[k].0 != out[i].0);
                    }
                }
            }
        }
    }
    assert forall|l: Seq<char>| has_qualifying(cur, l) implies exists|i: int|
        0 <= i < out.len() && (#[trigger] out[i]).0 == l by {
        let w = choose|w: int|
            0 <= w < cur.len() && #[trigger] cur[w].0 == l && cur[w].1 > CONFIDENCE_THRESHOLD;
        if w < prev.len() {
            assert(has_qualifying(prev, l));
        } else {
            assert(cur[w] == e);
            assert(out[k].0 == l);
        }
    }
}

/// Appending a qualifying entry whose label already appears with a lower
/// score: replacing that score with the new one restores aggregation.
proof fn lemma_update_keeps_aggregation(
    prev: Seq<(Seq<char>, u64)>,
    out: Seq<(Seq<char>, u64)>,
    k: int,
    e: (Seq<char>, u64),
)
    requires
        is_aggregation(prev, out),
        qualifies(e),
        0 <= k < out.len(),
        out[k].0 == e.0,
        e.1 > out[k].1,
    ensures
        is_aggregation(prev.push(e), out.update(k, (e.0, e.1))),
{
    let cur = prev.push(e);
    let res = out.update(k, (e.0, e.1));
    assert(forall|j: int| 0 <= j < prev.len() ==> cur[j] == prev[j]);
    assert(res[k] == (e.0, e.1));
    assert(forall|i: int| 0 <= i < out.len() && i != k ==> res[i] == out[i]);
    assert(forall|i: int| 0 <= i < res.len() ==> (#[trigger] res[i]).0 == out[i].0);
    assert forall|i: int| 0 <= i < res.len() implies is_max_for(cur, (#[trigger] res[i]).0, res[i].1) by {
        if i == k {
            assert(cur.last() == e);
            assert(cur[prev.len() as int].0 == e.0 && cur[prev.len() as int].1 == e.1);
            assert forall|j: int| 0 <= j < cur.len() && #[trigger] cur[j].0 == e.0 implies cur[j].1
                <= e.1 by {
                if j < prev.len() {
                    assert(prev[j].0 == out[k].0);
                    assert(is_max_for(prev, out[k].0, out[k].1));
                    assert(prev[j].1 <= out[k].1);
                }
            }
        } else {
            assert(is_max_for(prev, out[i].0, out[i].1));
            let w = choose|w: int|
                0 <= w < prev.len() && #[trigger] prev[w].0 == out[i].0 && prev[w].1 == out[i].1;
            assert(cur[w].0 == out[i].0 && cur[w].1 == out[i].1);
            assert forall|j: int| 0 <= j < cur.len() && #[trigger] cur[j].0 == res[i].0 implies cur[j].1
                <= res[i].1 by {
                if j < prev.len() {
                    assert(prev[j].0 == out[i].0);
                } else {
                    assert(cur[j] == e);
                    if i < k {
                        assert(out[i].0 != out[k].0);
                    } else {
                        assert(out[k].0 != out[i].0);
                    }
                }
            }
        }
    }
    assert forall|l: Seq<char>| has_qualifying(cur, l) implies exists|i: int|
        0 <= i < res.len() && (#[trigger] res[i]).0 == l by {
        let w = choose|w: int|
            0 <= w < cur.len() && #[trigger] cur[w].0 == l && cur[w].1 > CONFIDENCE_THRESHOLD;
        if w < prev.len() {
            assert(has_qualifying(prev, l));
            let i = choose|i: int| 0 <= i < out.len() && (#[trigger] out[i]).0 == l;
            assert(res[i].0 == l);
        } else {
            assert(cur[w] == e);
            assert(res[k].0 == l);
        }
    }
}

/// Appending a qualifying entry whose label is new: pushing it onto the
/// result restores aggregation.
proof fn lemma_push_keeps_aggregation(
    prev: Seq<(Seq<char>, u64)>,
    out: Seq<(Seq<char>, u64)>,
    e: (Seq<char>, u64),
)
    requires
        is_aggregation(prev, out),
        qualifies(e),
        forall|j: int| 0 <= j < out.len() ==> (#[trigger] out[j]).0 != e.0,
    ensures
        is_aggregation(prev.push(e), out.push(e)),
{
    let cur = prev.push(e);
    let res = out.push(e);
    assert(forall|j: int| 0 <= j < prev.len() ==> cur[j] == prev[j]);
    assert(forall|j: int| 0 <= j < out.len() ==> res[j] == out[j]);
    assert(res.last() == e);
    // No earlier entry carries the new label and a higher score: such an
    // entry would qualify, so its label would already stand in `out`.
    assert forall|j: int| 0 <= j < prev.len() && #[trigger] prev[j].0 == e.0 implies prev[j].1
        <= e.1 by {
        if prev[j].1 > e.1 {
            assert(prev[j].1 > CONFIDENCE_THRESHOLD);
            assert(has_qualifying(prev, e.0));
            let i = choose|i: int| 0 <= i < out.len() && (#[trigger] out[i]).0 == e.0;
            assert(false);
        }
    }
    assert forall|i: int| 0 <= i < res.len() implies is_max_for(cur, (#[trigger] res[i]).0, res[i].1) by {
        if i == out.len() {
            assert(cur[prev.len() as int] == e);
            assert forall|j: int| 0 <= j < cur.len() && #[trigger] cur[j].0 == e.0 implies cur[j].1
                <= e.1 by {
                if j < prev.len() {
                    assert(prev[j].0 == e.0);
                }
            }
        } else {
            assert(is_max_for(prev, out[i].0, out[i].1));
            let w = choose|w: int|
                0 <= w < prev.len() && #[trigger] prev[w].0 == out[i].0 && prev[w].1 == out[i].1;
            assert(cur[w].0 == out[i].0 && cur[w].1 == out[i].1);
            assert forall|j: int| 0 <= j < cur.len() && #[trigger] cur[j].0 == res[i].0 implies cur[j].1
                <= res[i].1 by {
                if j < prev.len() {
                    assert(prev[j].0 == out[i].0);
                } else {
                    assert(cur[j] == e);
                    assert(out[i].0 != e.0);
                }
            }
        }
    }
    assert forall|l: Seq<char>| has_qualifying(cur, l) implies exists|i: int|
        0 <= i < res.len() && (#[trigger] res[i]).0 == l by {
        let w = choose|w: int|
            0 <= w < cur.len() && #[trigger] cur[w].0 == l && cur[w].1 > CONFIDENCE_THRESHOLD;
        if w < prev.len() {
            assert(has_qualifying(prev, l));
            let i = choose|i: int| 0 <= i < out.len() && (#[trigger] out[i]).0 == l;
            assert(res[i].0 == l);
        } else {
            assert(cur[w] == e);
            assert(res[out.len() as int].0 == l);
        }
    }
}

/// Aggregating an empty entry list yields an empty result.
pub proof fn lemma_aggregation_of_empty(out: Seq<(Seq<char>, u64)>)
    requires
        is_aggregation(Seq::empty(), out),
    ensures
        out.len() == 0,
{
    if out.len() > 0 {
        assert(is_max_for(Seq::empty(), out[0].0, out[0].1));
        let w = choose|w: int|
            0 <= w < Seq::<(Seq<char>, u64)>::empty().len() && #[trigger] Seq::<(
                Seq<char>,
                u64,
            )>::empty()[w].0 == out[0].0 && Seq::<(Seq<char>, u64)>::empty()[w].1 == out[0].1;
        assert(false);
    }
}

/// Aggregation is idempotent: feeding a result back through aggregation as a
/// single chunk yields exactly the same label-score pairs, in whatever order.
pub proof fn lemma_aggregate_idempotent(
    entries: Seq<(Seq<char>, u64)>,
    r1: Seq<(Seq<char>, u64)>,
    r2: Seq<(Seq<char>, u64)>,
)
    requires
        is_aggregation(entries, r1),
        is_aggregation(r1, r2),
    ensures
        forall|l: Seq<char>, s: u64| contains_entry(r1, l, s) <==> contains_entry(r2, l, s),
{
    assert forall|l: Seq<char>, s: u64| contains_entry(r1, l, s) implies contains_entry(
        r2,
        l,
        s,
    ) by {
        let j = choose|j: int| 0 <= j < r1.len() && #[trigger] r1[j] == (l, s);
        assert(r1[j].1 > CONFIDENCE_THRESHOLD);
        assert(r1[j].0 == l && r1[j].1 == s);
        assert(has_qualifying(r1, l));
        let k = choose|k: int| 0 <= k < r2.len() && (#[trigger] r2[k]).0 == l;
        assert(is_max_for(r1, l, r2[k].1));
        let w = choose|w: int| 0 <= w < r1.len() && #[trigger] r1[w].0 == l && r1[w].1 == r2[k].1;
        if w != j {
            if w < j {
                assert(r1[w].0 != r1[j].0);
            } else {
                assert(r1[j].0 != r1[w].0);
            }
        }
        assert(r2[k].1 == s);
        assert(r2[k] == (l, s));
    }
    assert forall|l: Seq<char>, s: u64| contains_entry(r2, l, s) implies contains_entry(
        r1,
        l,
        s,
    ) by {
        let k = choose|k: int| 0 <= k < r2.len() && #[trigger] r2[k] == (l, s);
        assert(is_max_for(r1, (l, s).0, (l, s).1));
        let w = choose|w: int| 0 <= w < r1.len() && #[trigger] r1[w].0 == l && r1[w].1 == s;
        assert(r1[w] == (l, s));
    }
}

} // verus!
