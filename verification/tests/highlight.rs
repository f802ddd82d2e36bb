//! Highlight fragments.
use aisearch_emulator::query::analyzers::analyze_with;
use aisearch_emulator::service::highlight::{
    highlight_fragments, split_sentences, FRAGMENT_WINDOW, LONGEST_WHOLE_SENTENCE,
    MAX_HIGHLIGHT_FRAGMENTS,
};

fn terms(list: &[&str]) -> Vec<String> {
    list.iter()
        .flat_map(|s| analyze_with(s, None))
        .collect()
}

/// Unwraps a [`highlight_fragments`] result, panicking when no fragment was
/// produced (the tests always assert a match exists).
fn frags(opt: Option<Vec<String>>) -> Vec<String> {
    match opt {
        Some(f) => f,
        None => panic!("expected highlight fragments"),
    }
}

#[test]
fn split_sentences_on_terminators() {
    let sentences = split_sentences("Azure is great. Nothing here! Find it? Last one");
    assert_eq!(
        sentences,
        vec![
            "Azure is great.",
            " Nothing here!",
            " Find it?",
            " Last one"
        ]
    );
}

#[test]
fn split_sentences_without_terminator_is_single() {
    assert_eq!(split_sentences("one two three"), vec!["one two three"]);
}

#[test]
fn short_field_is_single_fragment() {
    let fragments = frags(highlight_fragments(
        "Azure Search Rocks",
        &terms(&["azure"]),
        None,
        "<em>",
        "</em>",
    ));
    assert_eq!(fragments, vec!["<em>Azure</em> Search Rocks"]);
}

#[test]
fn only_matching_sentences_become_fragments_in_order() {
    let text = "Azure is great. Nothing relevant here. Search finds azure twice.";
    let fragments = frags(highlight_fragments(
        text,
        &terms(&["azure"]),
        None,
        "<em>",
        "</em>",
    ));
    assert_eq!(fragments.len(), 2);
    assert!(fragments[0].contains("<em>Azure</em>"));
    assert!(fragments[1].contains("<em>azure</em>"));
}

#[test]
fn at_most_three_fragments_per_field() {
    let text = "a azure. b azure. c azure. d azure. e azure.";
    let fragments = frags(highlight_fragments(
        text,
        &terms(&["azure"]),
        None,
        "<em>",
        "</em>",
    ));
    assert_eq!(fragments.len(), MAX_HIGHLIGHT_FRAGMENTS);
}

#[test]
fn no_match_yields_none() {
    assert!(
        highlight_fragments("hello world", &terms(&["azure"]), None, "<em>", "</em>").is_none()
    );
}

#[test]
fn phrase_terms_in_one_sentence_yield_single_fragment() {
    // A phrase query analyzes to its constituent terms; all matches in one
    // sentence produce a single fragment.
    let fragments = frags(highlight_fragments(
        "Azure Search Rocks",
        &terms(&["azure", "search"]),
        None,
        "<em>",
        "</em>",
    ));
    assert_eq!(fragments.len(), 1);
    assert_eq!(fragments[0], "<em>Azure</em> <em>Search</em> Rocks");
}

#[test]
fn long_sentence_yields_window_not_whole_sentence() {
    let filler = "word ".repeat(50).trim_end().to_owned();
    let text = format!("{filler} azure {filler}");
    assert!(text.len() > LONGEST_WHOLE_SENTENCE);
    let fragments = frags(highlight_fragments(
        &text,
        &terms(&["azure"]),
        None,
        "<em>",
        "</em>",
    ));
    assert_eq!(fragments.len(), 1);
    assert!(fragments[0].contains("<em>azure</em>"));
    // The fragment is a bounded window (match plus ~100 chars either side,
    // plus the tags), not the whole over-long sentence.
    assert!(fragments[0].len() < text.len());
    assert!(fragments[0].len() <= FRAGMENT_WINDOW * 2 + 50);
}

#[test]
fn long_sentence_with_distant_matches_yields_window_per_match() {
    let filler = "word ".repeat(50).trim_end().to_owned();
    let text = format!("{filler} azure {filler} azure {filler}");
    let fragments = frags(highlight_fragments(
        &text,
        &terms(&["azure"]),
        None,
        "<em>",
        "</em>",
    ));
    assert_eq!(fragments.len(), 2);
    assert!(fragments[0].contains("<em>azure</em>"));
    assert!(fragments[1].contains("<em>azure</em>"));
}

#[test]
fn tags_wrap_only_matched_words() {
    let fragments = frags(highlight_fragments(
        "the azure sky",
        &terms(&["azure"]),
        None,
        "<b>",
        "</b>",
    ));
    assert_eq!(fragments, vec!["the <b>azure</b> sky"]);
}

#[test]
fn windows_are_counted_in_characters() {
    let filler = "\u{e9}".repeat(150);
    let text = format!("{filler} azure {filler}");
    let fragments = frags(highlight_fragments(&text, &terms(&["azure"]), None, "<em>", "</em>"));
    let side = "\u{e9}".repeat(FRAGMENT_WINDOW - 1);
    assert_eq!(fragments, vec![format!("{side} <em>azure</em> {side}")]);
}
