use classification_service::aggregate::{
    aggregate, Classification, LabelScore, CONFIDENCE_THRESHOLD, SCORE_SCALE,
};
use classification_service::backend::{
    backend_step, can_infer, is_failed, BackendEvent, BackendPhase,
};
use classification_service::segment::{segment, MAX_TOKENS};
use classification_service::session::{ClassificationError, ClassificationSession, Classify};
use classification_service::text::normalize;
use tokenizers::Tokenizer;

/// A word-level tokenizer with a whitespace pre-tokenizer: every word counts
/// as exactly one token, unknown words included.
fn word_tokenizer() -> Tokenizer {
    let definition = r#"{
        "version": "1.0",
        "truncation": null,
        "padding": null,
        "added_tokens": [],
        "normalizer": null,
        "pre_tokenizer": { "type": "Whitespace" },
        "post_processor": null,
        "decoder": null,
        "model": {
            "type": "WordLevel",
            "vocab": { "<unk>": 0, "alpha": 1, "beta": 2, "gamma": 3, "delta": 4 },
            "unk_token": "<unk>"
        }
    }"#;
    Tokenizer::from_bytes(definition.as_bytes()).expect("tokenizer definition should parse")
}

fn entry(label: &str, score: u64) -> LabelScore {
    LabelScore {
        label: label.to_string(),
        score,
    }
}

fn sorted_pairs(result: Vec<Classification>) -> Vec<(String, u64)> {
    let mut pairs: Vec<(String, u64)> = result.into_iter().map(|c| (c.label, c.score)).collect();
    pairs.sort();
    pairs
}

#[test]
fn normalize_collapses_whitespace() {
    assert_eq!(normalize("  Some\ttext \n\n here "), "Some text here");
}

#[test]
fn normalize_empty_and_blank() {
    assert_eq!(normalize(""), "");
    assert_eq!(normalize(" \n\t\r "), "");
}

#[test]
fn normalize_unicode_whitespace() {
    assert_eq!(normalize("a\u{00A0}\u{2003}b\u{3000}"), "a b");
}

#[test]
fn aggregate_of_nothing_is_empty() {
    let result = aggregate(Vec::new());
    assert!(result.is_empty());
    let result = aggregate(vec![Vec::new(), Vec::new()]);
    assert!(result.is_empty());
}

#[test]
fn aggregate_enforces_strict_threshold() {
    let result = aggregate(vec![vec![
        entry("Education", CONFIDENCE_THRESHOLD),
        entry("Defense", CONFIDENCE_THRESHOLD + 1),
        entry("Energy", 100_000),
    ]]);
    assert_eq!(
        sorted_pairs(result),
        vec![("Defense".to_string(), CONFIDENCE_THRESHOLD + 1)]
    );
}

#[test]
fn aggregate_keeps_maximum_across_chunks() {
    let result = aggregate(vec![
        vec![entry("Education", 800_000), entry("Health Care", 760_000)],
        vec![entry("Education", 990_000)],
        vec![entry("Education", 850_000)],
    ]);
    assert_eq!(
        sorted_pairs(result),
        vec![
            ("Education".to_string(), 990_000),
            ("Health Care".to_string(), 760_000),
        ]
    );
}

#[test]
fn aggregate_keeps_maximum_within_one_chunk() {
    let result = aggregate(vec![vec![
        entry("Tax", 780_000),
        entry("Tax", 960_000),
        entry("Tax", 800_000),
    ]]);
    assert_eq!(sorted_pairs(result), vec![("Tax".to_string(), 960_000)]);
}

#[test]
fn aggregate_is_case_and_whitespace_sensitive_on_labels() {
    let result = aggregate(vec![vec![
        entry("Trade", 800_000),
        entry("trade", 900_000),
        entry("Trade ", 950_000),
    ]]);
    assert_eq!(
        sorted_pairs(result),
        vec![
            ("Trade".to_string(), 800_000),
            ("Trade ".to_string(), 950_000),
            ("trade".to_string(), 900_000),
        ]
    );
}

#[test]
fn aggregate_twice_yields_the_same_set() {
    let first = aggregate(vec![
        vec![entry("Education", 800_000), entry("Energy", 200_000)],
        vec![entry("Education", 990_000), entry("Labor", 770_000)],
    ]);
    let again = aggregate(vec![first
        .iter()
        .map(|c| entry(&c.label, c.score))
        .collect()]);
    assert_eq!(sorted_pairs(first), sorted_pairs(again));
}

#[test]
fn scores_are_fixed_point_millionths() {
    assert_eq!(SCORE_SCALE, 1_000_000);
    assert_eq!(CONFIDENCE_THRESHOLD, 750_000);
}

#[test]
fn segment_small_text_is_one_chunk() {
    let tokenizer = word_tokenizer();
    let chunks = segment("  alpha beta\n\ngamma ", MAX_TOKENS, &tokenizer);
    assert_eq!(chunks, vec!["alpha beta gamma".to_string()]);
}

#[test]
fn segment_respects_token_budget() {
    let tokenizer = word_tokenizer();
    let text = "alpha beta gamma delta epsilon zeta";
    let chunks = segment(text, 2, &tokenizer);
    assert!(chunks.len() >= 3);
    for chunk in &chunks {
        let encoding = tokenizer.encode(chunk.as_str(), false).expect("chunk should tokenize");
        assert!(encoding.get_ids().len() <= 2);
    }
    assert_eq!(chunks.join(" "), normalize(text));
}

#[test]
fn segment_empty_text_yields_no_chunks() {
    let tokenizer = word_tokenizer();
    assert!(segment("", MAX_TOKENS, &tokenizer).is_empty());
    assert!(segment(" \n \t ", MAX_TOKENS, &tokenizer).is_empty());
}

#[test]
fn session_empty_text_yields_empty_result() {
    let tokenizer = word_tokenizer();
    let request = Classify {
        text: String::new(),
        categories: vec!["A".to_string(), "B".to_string()],
    };
    let session = ClassificationSession::start(request, &tokenizer);
    assert!(session.next_chunk().is_none());
    assert!(session.is_done());
    assert!(session.finish().is_empty());
}

#[test]
fn session_no_categories_never_reaches_the_backend() {
    let tokenizer = word_tokenizer();
    let request = Classify {
        text: "alpha beta gamma".to_string(),
        categories: Vec::new(),
    };
    let session = ClassificationSession::start(request, &tokenizer);
    assert!(session.next_chunk().is_none());
    assert!(session.is_done());
    assert!(session.finish().is_empty());
}

#[test]
fn session_drives_chunks_through_aggregation() {
    let tokenizer = word_tokenizer();
    let request = Classify {
        text: "alpha beta gamma delta".to_string(),
        categories: vec!["Education".to_string(), "Defense".to_string()],
    };
    let mut session = ClassificationSession::start(request, &tokenizer);
    let mut backend_calls: usize = 0;
    while let Some(chunk) = session.next_chunk() {
        assert!(!chunk.is_empty());
        let scores = vec![
            entry("Education", 900_000 - (backend_calls as u64)),
            entry("Defense", 300_000),
        ];
        backend_calls += 1;
        session.record(scores);
    }
    assert!(session.is_done());
    assert!(backend_calls >= 1);
    let result = session.finish();
    assert_eq!(sorted_pairs(result), vec![("Education".to_string(), 900_000)]);
}

#[test]
fn session_categories_are_kept_for_the_backend() {
    let tokenizer = word_tokenizer();
    let request = Classify {
        text: "alpha".to_string(),
        categories: vec!["Education".to_string(), "Education".to_string()],
    };
    let session = ClassificationSession::start(request, &tokenizer);
    assert_eq!(
        session.categories(),
        &vec!["Education".to_string(), "Education".to_string()]
    );
}

#[test]
fn backend_lifecycle_runs_once() {
    let phase = BackendPhase::Uninitialized;
    assert!(!can_infer(phase));
    let phase = backend_step(phase, BackendEvent::StartLoading);
    assert_eq!(phase, BackendPhase::Loading);
    assert!(!can_infer(phase));
    let phase = backend_step(phase, BackendEvent::LoadSucceeded);
    assert_eq!(phase, BackendPhase::Ready);
    assert!(can_infer(phase));
    assert!(!is_failed(phase));
    // A ready backend is never torn down or reloaded.
    assert_eq!(backend_step(phase, BackendEvent::StartLoading), BackendPhase::Ready);
    assert_eq!(backend_step(phase, BackendEvent::LoadFailed), BackendPhase::Ready);
}

#[test]
fn backend_load_failure_is_permanent() {
    let phase = backend_step(BackendPhase::Uninitialized, BackendEvent::StartLoading);
    let phase = backend_step(phase, BackendEvent::LoadFailed);
    assert_eq!(phase, BackendPhase::Failed);
    assert!(is_failed(phase));
    assert!(!can_infer(phase));
    assert_eq!(backend_step(phase, BackendEvent::StartLoading), BackendPhase::Failed);
    assert_eq!(backend_step(phase, BackendEvent::LoadSucceeded), BackendPhase::Failed);
}

#[test]
fn classification_error_carries_its_message() {
    let error = ClassificationError::RuntimeError("model call failed".to_string());
    assert_eq!(error.message().as_str(), "model call failed");
}
