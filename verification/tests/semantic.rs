//! Sentences, captions, and the selection of answers.
use aisearch_emulator::error::ApiError;
use aisearch_emulator::json::{Json, JsonMap, Number};
use aisearch_emulator::semantic::answers::{
    field_text, highlight_text, query_terms, split_sentences, MAX_SENTENCE_LENGTH,
};
use aisearch_emulator::semantic::captions::{truncate, CAPTION_MAX_LENGTH};
use aisearch_emulator::semantic::config::{SemanticConfig, SemanticConfiguration};
use aisearch_emulator::semantic::query::{
    SemanticErrorHandling, SemanticLimits, SemanticQuery, SemanticQueryAnswers,
    SemanticQueryCaptions,
};
use aisearch_emulator::semantic::reranker::normalize_cosine;
use aisearch_emulator::semantic::selection::{
    count_sentences, gather_candidates, rank_sentences, select_answers, select_caption_texts,
    select_captions,
};
use aisearch_emulator::service::ordering::Scored;
use aisearch_emulator::service::semantic_options::parse_semantic;
use aisearch_emulator::storage::definition::FieldDefinition;
use aisearch_emulator::storage::document::Document;

fn convert(v: &serde_json::Value) -> Json {
    match v {
        serde_json::Value::Null => Json::Null,
        serde_json::Value::Bool(b) => Json::Bool(*b),
        serde_json::Value::Number(n) => Json::Number(if let Some(u) = n.as_u64() {
            Number::PosInt(u)
        } else if let Some(i) = n.as_i64() {
            Number::NegInt(i)
        } else {
            Number::Float(tantivy::f64_to_u64(n.as_f64().unwrap()))
        }),
        serde_json::Value::String(s) => Json::String(s.clone()),
        serde_json::Value::Array(items) => Json::Array(items.iter().map(convert).collect()),
        serde_json::Value::Object(map) => {
            let mut m = JsonMap::new();
            for (k, x) in map {
                m.insert(k.clone(), convert(x));
            }
            Json::Object(m)
        }
    }
}

fn json(text: &str) -> Json {
    convert(&serde_json::from_str(text).unwrap())
}

#[test]
fn split_sentences_basic() {
    let sentences = split_sentences(
        "Hello world, this is a test. How are you doing today? I am fine, thanks!",
    );
    assert_eq!(
        sentences,
        vec![
            "Hello world, this is a test.",
            "How are you doing today?",
            "I am fine, thanks!"
        ]
    );
}

#[test]
fn split_sentences_semicolon_and_newline() {
    let sentences = split_sentences(
        "First part of the text here; second part of the text here.\nThird part of the text here now.",
    );
    assert_eq!(
        sentences,
        vec![
            "First part of the text here;",
            "second part of the text here.",
            "Third part of the text here now."
        ]
    );
}

#[test]
fn split_sentences_short_fragments_merge() {
    // "Hi." is shorter than 20 chars, so it merges with the next sentence.
    let sentences = split_sentences("Hi. This is a much longer sentence following it.");
    assert_eq!(
        sentences,
        vec!["Hi. This is a much longer sentence following it."]
    );
}

#[test]
fn split_sentences_long_sentence_splits_at_word_boundary() {
    let long = format!("{} end.", "word ".repeat(150));
    assert!(long.chars().count() > MAX_SENTENCE_LENGTH);
    let sentences = split_sentences(&long);
    assert!(sentences.len() > 1);
    for sentence in &sentences {
        assert!(sentence.chars().count() <= MAX_SENTENCE_LENGTH);
    }
}

#[test]
fn split_sentences_empty() {
    assert!(split_sentences("").is_empty());
    assert!(split_sentences("   ").is_empty());
}

#[test]
fn split_sentences_no_abbreviation_handling() {
    // Abbreviations are not special-cased: "e.g." ends a sentence when
    // followed by whitespace... but the fragment is short, so it merges.
    let sentences = split_sentences("See e.g. the documentation for details here.");
    assert_eq!(
        sentences,
        vec!["See e.g. the documentation for details here."]
    );
}

#[test]
fn truncate_short_text_unchanged() {
    assert_eq!(truncate("hello world", 200), "hello world");
}

#[test]
fn truncate_exact_length_unchanged() {
    let text = "a".repeat(200);
    assert_eq!(truncate(&text, 200), text);
}

#[test]
fn truncate_cuts_at_word_boundary_with_ellipsis() {
    let text = format!("{} tail", "word ".repeat(60));
    let result = truncate(&text, 200);
    assert!(result.chars().count() <= 200);
    assert!(result.ends_with("..."));
    assert!(!result.contains("tail"));
    // No partial word before the ellipsis.
    assert!(result[..result.len() - 3].ends_with("word"));
}

#[test]
fn truncate_hard_splits_without_word_boundary() {
    let text = "a".repeat(250);
    let result = truncate(&text, 200);
    assert_eq!(result.chars().count(), 200);
    assert!(result.ends_with("..."));
}

#[test]
fn truncate_multibyte_safe() {
    let text = "\u{00e9}".repeat(250);
    let result = truncate(&text, 200);
    assert_eq!(result.chars().count(), 200);
}

#[test]
fn truncate_trims_surrounding_whitespace() {
    assert_eq!(truncate("  hello world  ", 200), "hello world");
}

fn texts(list: &[&str]) -> Vec<String> {
    list.iter().map(|s| (*s).to_owned()).collect()
}

fn document(key: &str, fields: &str) -> Document {
    match json(fields) {
        Json::Object(fields) => Document { key: key.to_owned(), fields },
        _ => panic!("not an object"),
    }
}

fn rank(x: f64) -> u64 {
    tantivy::f64_to_u64(x)
}

fn message<T>(result: Result<T, ApiError>) -> String {
    match result {
        Ok(_) => panic!("expected an error"),
        Err(e) => {
            assert_eq!((e.status, e.code.as_str()), (400, "InvalidQuery"));
            e.message
        }
    }
}

fn semantic_fields() -> Vec<FieldDefinition> {
    [
        r#"{"name": "id", "type": "Edm.String", "key": true}"#,
        r#"{"name": "title", "type": "Edm.String", "searchable": true}"#,
        r#"{"name": "body", "type": "Edm.String", "searchable": true}"#,
        r#"{"name": "secret", "type": "Edm.String", "retrievable": false}"#,
    ]
    .iter()
    .map(|raw| match FieldDefinition::from_json(json(raw)) {
        Ok(field) => field,
        Err(e) => panic!("{e}"),
    })
    .collect()
}

fn config_of(raw: &str) -> Result<Option<SemanticConfig>, String> {
    SemanticConfig::from_json(&json(raw), &semantic_fields())
}

#[test]
fn semantic_configurations_name_their_fields() {
    let config = config_of(
        r#"{"configurations": [
            {"name": "a", "priorities": {"answers": ["body", "title", "body"], "captions": ["title"]},
             "reranker": {"name": "standard"}},
            {"name": "b", "prioritizedFields": {
                "titleField": {"fieldName": "title"},
                "prioritizedContentFields": [{"fieldName": "body"}],
                "prioritizedKeywordsFields": [{"fieldName": "title"}]
            }}
        ]}"#,
    )
    .unwrap()
    .unwrap();
    let a = config.configuration("a").unwrap();
    assert_eq!(a.answers_fields, texts(&["body", "title"]));
    assert_eq!(a.captions_fields, texts(&["title"]));
    let b = config.configuration("b").unwrap();
    assert_eq!(b.answers_fields, texts(&["title", "body"]));
    assert!(config.configuration("c").is_none());
}

#[test]
fn invalid_semantic_configurations_are_rejected() {
    let one = |entry: &str| match config_of(&format!(r#"{{"configurations": [{entry}]}}"#)) {
        Ok(_) => panic!("expected an error: {entry}"),
        Err(e) => e,
    };
    assert_eq!(
        config_of("[]").err().unwrap(),
        "The 'semantic' property must be a JSON object."
    );
    assert_eq!(
        config_of("{}").err().unwrap(),
        "The 'semantic' property requires a 'configurations' array."
    );
    assert_eq!(
        config_of(r#"{"configurations": []}"#).err().unwrap(),
        "Semantic configuration must have at least one entry."
    );
    assert_eq!(one("{}"), "Each semantic configuration requires a non-empty 'name' string.");
    assert_eq!(
        one(r#"{"name": "a", "priorities": {"answers": ["secret"]}}"#),
        "Semantic priority field \"secret\" must be retrievable."
    );
    assert_eq!(
        one(r#"{"name": "a", "priorities": {"answers": ["body"]}, "reranker": {"name": "x"}}"#),
        "Unknown reranker \"x\"; only 'standard' is supported."
    );
    assert_eq!(
        one(r#"{"name": "a", "priorities": {"answers": ["body"]}, "rescorers": [1]}"#),
        "Rescorers are not supported."
    );
    assert!(one(
        r#"{"name": "a", "priorities": {"answers": ["body"]}}, {"name": "a", "priorities": {"answers": ["body"]}}"#
    )
    .contains("\"a\""));
}

#[test]
fn nested_semantic_options_are_read() {
    let limits = SemanticLimits::default();
    let read = |raw: &str| SemanticQuery::from_json(&json(raw), &limits);
    let query = read(
        r#"{
            "semanticConfiguration": "a",
            "queryContext": {"questions": ["why?"]},
            "answers": {"count": 2},
            "captions": {"count": 1, "answers": {}},
            "semanticErrorHandling": "partial"
        }"#,
    )
    .ok()
    .unwrap()
    .unwrap();
    assert_eq!(query.configuration, "a");
    assert_eq!(query.questions, texts(&["why?"]));
    assert_eq!(query.answers, Some(SemanticQueryAnswers { count: 2 }));
    assert_eq!(
        query.captions,
        Some(SemanticQueryCaptions { count: 1, answers: Some(SemanticQueryAnswers { count: 3 }) })
    );
    assert_eq!(query.error_handling, SemanticErrorHandling::ReturnPartialResults);
    assert!(read("null").ok().unwrap().is_none());
    assert_eq!(message(read("1")), "The 'semantic' property must be a JSON object.");
    assert_eq!(
        message(read("{}")),
        "The 'semantic' property requires a 'semanticConfiguration' string."
    );
    assert_eq!(
        message(read(r#"{"semanticConfiguration": "a", "answers": {"count": 6}}"#)),
        "Semantic answers count must be 1-5."
    );
    assert_eq!(
        message(read(r#"{"semanticConfiguration": "a", "captions": {"count": 0}}"#)),
        "Semantic captions count must be 1-3."
    );
    assert_eq!(
        message(read(r#"{"semanticConfiguration": "a", "answers": {"type": "made up"}}"#)),
        "Unsupported semantic answer type \"made up\"; only 'extractive' is supported."
    );
    assert_eq!(
        message(read(r#"{"semanticConfiguration": "a", "semanticErrorHandling": "x"}"#)),
        "Invalid semanticErrorHandling \"x\"."
    );
}

#[test]
fn flat_semantic_options_are_read() {
    let limits = SemanticLimits::default();
    let read = |raw: &str| match json(raw) {
        Json::Object(map) => parse_semantic(&map, &limits),
        _ => panic!("not an object"),
    };
    let query = read(
        r#"{"semanticConfiguration": "a", "answers": "extractive|count-2", "captions": "extractive"}"#,
    )
    .ok()
    .unwrap()
    .unwrap();
    assert_eq!(query.configuration, "a");
    assert_eq!(query.answers, Some(SemanticQueryAnswers { count: 2 }));
    assert_eq!(query.captions, Some(SemanticQueryCaptions { count: 1, answers: None }));
    assert_eq!(query.error_handling, SemanticErrorHandling::ThrowError);
    assert!(read("{}").ok().unwrap().is_none());
    assert_eq!(
        message(read(r#"{"semanticConfiguration": ""}"#)),
        "The 'semanticConfiguration' property requires a non-empty string."
    );
}

#[test]
fn sentences_are_counted_by_term() {
    let sentences = texts(&["The running dog runs.", "Cats sleep."]);
    let (counts, frequencies) = count_sentences(&sentences, &texts(&["run", "dog", "cat"]));
    assert_eq!(counts[0].frequencies, vec![2, 1, 0]);
    assert_eq!(counts[1].frequencies, vec![0, 0, 1]);
    assert_eq!(counts[0].length, 3);
    assert_eq!(frequencies, vec![1, 1, 1]);
}

fn configuration() -> SemanticConfiguration {
    SemanticConfiguration {
        name: "a".to_owned(),
        answers_fields: texts(&["title", "body"]),
        captions_fields: texts(&["body"]),
    }
}

fn semantic_query(answers: usize, captions: usize, nested: Option<usize>) -> SemanticQuery {
    SemanticQuery {
        configuration: "a".to_owned(),
        questions: Vec::new(),
        answers: Some(SemanticQueryAnswers { count: answers }),
        captions: Some(SemanticQueryCaptions {
            count: captions,
            answers: nested.map(|count| SemanticQueryAnswers { count }),
        }),
        error_handling: SemanticErrorHandling::ThrowError,
    }
}

#[test]
fn answers_are_the_best_sentences() {
    let scored = vec![
        Scored {
            document: document("2", r#"{"title": "Dogs are loyal animals.", "body": "  "}"#),
            score: rank(1.0),
        },
        Scored {
            document: document(
                "1",
                r#"{"title": "A dog runs in the garden.", "body": "Nothing to see at all. Dogs bark every morning."}"#,
            ),
            score: rank(0.5),
        },
    ];
    let config = configuration();
    let candidates = gather_candidates(&scored, &config.answers_fields);
    let found: Vec<(&str, &str)> =
        candidates.iter().map(|c| (c.key.as_str(), c.text.as_str())).collect();
    assert_eq!(
        found,
        vec![
            ("2", "Dogs are loyal animals."),
            ("1", "A dog runs in the garden."),
            ("1", "Nothing to see at all."),
            ("1", "Dogs bark every morning."),
        ]
    );
    let scores = vec![rank(1.0), rank(1.0), rank(0.0), rank(2.0)];
    let terms = query_terms("dogs", &Vec::new());
    let pick = |count: usize| {
        select_answers(
            &scored,
            &terms,
            &config,
            &semantic_query(count, 1, None),
            &scores,
            "<b>",
            "</b>",
        )
    };
    let answers = pick(5);
    let shown: Vec<(&str, &str)> =
        answers.iter().map(|a| (a.key.as_str(), a.highlights.as_str())).collect();
    assert_eq!(
        shown,
        vec![
            ("1", "<b>Dogs</b> bark every morning."),
            ("1", "A <b>dog</b> runs in the garden."),
            ("2", "<b>Dogs</b> are loyal animals."),
        ]
    );
    assert_eq!(answers[0].score, rank(2.0));
    assert_eq!(pick(1).len(), 1);
}

#[test]
fn truncated_texts_never_exceed_the_limit() {
    let text = "one two three four";
    let fits: Vec<String> = (0..6).map(|n| truncate(text, n)).collect();
    assert_eq!(fits, vec!["", ".", "..", "...", "o...", "on..."]);
    assert_eq!(truncate(text, 8), "one...");
}

#[test]
fn captions_are_truncated_field_texts() {
    let long = "word ".repeat(100);
    let doc = document("1", &format!(r#"{{"title": "Short title", "body": "{long}"}}"#));
    let fields = texts(&["missing", "title", "body"]);
    let captions = select_caption_texts(&doc, &fields, 2);
    assert_eq!(captions[0], "Short title");
    assert!(captions[1].chars().count() <= CAPTION_MAX_LENGTH);
    assert!(captions[1].ends_with("..."));
    assert_eq!(select_caption_texts(&doc, &fields, 1).len(), 1);
    assert_eq!(field_text(&doc, "title"), "Short title");
    assert_eq!(field_text(&doc, "missing"), "");
}

#[test]
fn captions_carry_nested_answers() {
    let doc = document("1", r#"{"body": "Dogs bark every morning. Cats sleep all day long."}"#);
    let terms = query_terms("dogs", &texts(&["what do cats do"]));
    let captions = |count: usize, nested: &Vec<Vec<u64>>| {
        select_captions(
            &doc,
            &configuration(),
            &semantic_query(1, count, Some(1)),
            &terms,
            nested,
            "<b>",
            "</b>",
        )
    };
    let both = captions(2, &vec![vec![rank(0.5)], vec![rank(0.0)]]);
    assert_eq!(both.len(), 2);
    assert_eq!(both[0].text, "Dogs bark every morning.");
    assert_eq!(both[0].highlights, "<b>Dogs</b> bark every morning.");
    assert_eq!(both[0].answers.len(), 1);
    assert_eq!(both[0].answers[0].text, "Dogs bark every morning.");
    assert_eq!(both[0].answers[0].score, rank(0.5));
    assert_eq!(both[1].highlights, "<b>Cats</b> sleep all day long.");
    assert!(both[1].answers.is_empty());
    assert_eq!(captions(1, &vec![vec![rank(0.5)]]).len(), 1);
}

#[test]
fn ranked_sentences_have_positive_scores() {
    let sentences = texts(&["a", "b", "c"]);
    let ranked = rank_sentences(&sentences, &vec![rank(0.5), rank(0.0), rank(0.5)], 5);
    let order: Vec<&str> = ranked.iter().map(|s| s.text.as_str()).collect();
    assert_eq!(order, vec!["a", "c"]);
}

#[test]
fn terms_are_highlighted_by_their_stem() {
    let terms = query_terms("Running", &Vec::new());
    assert_eq!(terms, texts(&["run"]));
    assert_eq!(highlight_text("He runs.", &terms, "[", "]"), "He [runs.]");
    assert_eq!(highlight_text("Nothing.", &terms, "[", "]"), "Nothing.");
}

fn cosine(score: f32) -> f32 {
    tantivy::u64_to_f64(normalize_cosine(rank(f64::from(score)))) as f32
}

#[test]
fn cosine_negative() {
    assert_eq!(cosine(-0.5), 0.0);
}

#[test]
fn cosine_zero() {
    assert_eq!(cosine(0.0), 0.0);
}

#[test]
fn cosine_one() {
    assert_eq!(cosine(1.0), 1.0);
}

#[test]
fn cosine_above_one() {
    assert_eq!(cosine(1.5), 1.0);
}

#[test]
fn cosine_between_is_kept() {
    assert_eq!(cosine(0.25), 0.25);
}

#[test]
fn long_sentences_are_split_by_characters() {
    let half = "\u{e9}".repeat(300);
    let sentences = split_sentences(&format!("{half} {half}"));
    assert_eq!(sentences, vec![half.clone(), half]);
    let whole = "\u{e9}".repeat(MAX_SENTENCE_LENGTH + 7);
    let sentences = split_sentences(&whole);
    assert_eq!(
        sentences,
        vec!["\u{e9}".repeat(MAX_SENTENCE_LENGTH), "\u{e9}".repeat(7)]
    );
}

#[test]
fn collections_supply_the_text_of_their_strings() {
    let d = document("1", r#"{"tags": ["red", 7, "blue"], "Rooms": [{"Type": "suite"}, {"Type": "loft"}]}"#);
    assert_eq!(field_text(&d, "tags"), "red blue");
    assert_eq!(field_text(&d, "Rooms/Type"), "suite loft");
    assert_eq!(field_text(&d, "missing"), "");
}

#[test]
fn sentences_keep_all_but_whitespace() {
    let dense = |s: &str| s.chars().filter(|c| !c.is_whitespace()).collect::<String>();
    for text in [
        "",
        "  \n ",
        "Hi.  Yes!\n\nThis is a sentence that is long enough; and more? No.",
        "One. Two. Three. Four. Five. Six. Seven. Eight. Nine. Ten. Eleven. Twelve.",
        "e.g. this.that stays; \r\n done",
    ] {
        let sentences = split_sentences(text);
        assert_eq!(dense(&sentences.concat()), dense(text));
        // Only the last one is short.
        for s in sentences.iter().rev().skip(1) {
            assert!(s.chars().count() >= 20, "{s}");
        }
    }
    let long = "word ".repeat(150) + &"x".repeat(1_200) + ". End";
    assert_eq!(dense(&split_sentences(&long).concat()), dense(&long));
}
