//! Analyzers: how text becomes terms.
use tantivy::tokenizer::{
    Language, LowerCaser, NgramTokenizer, RawTokenizer, SimpleTokenizer, Stemmer,
    StopWordFilter, TextAnalyzer, TokenStream, WhitespaceTokenizer,
};
use crate::filter::token::{left, past};
use crate::query::lucene::alphanumeric;
use crate::text::{
    byte_len, char_width, chars_of, is_space, lemma_texts_push, lemma_utf8_len_mono,
    lemma_utf8_len_step, same_text, space, text_between, texts, utf8_len,
};
use vstd::prelude::*;

verus! {

/// A single token of an analyzed text, with its position and its byte offsets.
#[derive(Debug, PartialEq, Eq)]
pub struct AnalyzeToken {
    pub token: String,
    pub start_offset: usize,
    pub end_offset: usize,
    pub position: usize,
}

/// The mathematical value of an [`AnalyzeToken`].
pub struct AnalyzeTokenV {
    pub token: Seq<char>,
    pub start_offset: usize,
    pub end_offset: usize,
    pub position: usize,
}

impl View for AnalyzeToken {
    type V = AnalyzeTokenV;

    open spec fn view(&self) -> AnalyzeTokenV {
        AnalyzeTokenV {
            token: self.token@,
            start_offset: self.start_offset,
            end_offset: self.end_offset,
            position: self.position,
        }
    }
}

pub open spec fn analyzed(v: Seq<AnalyzeToken>) -> Seq<AnalyzeTokenV> {
    v.map_values(|t: AnalyzeToken| t@)
}

pub broadcast proof fn lemma_analyzed_push(v: Seq<AnalyzeToken>, t: AnalyzeToken)
    ensures
        #[trigger] analyzed(v.push(t)) == analyzed(v).push(t@),
{
    assert(analyzed(v.push(t)) =~= analyzed(v).push(t@));
}

// ---------------------------------------------------------------------------
// The engine's tokenizers
// ---------------------------------------------------------------------------

/// The character n-grams from `len` to `max` characters that start at place `i`, each
/// at position zero, behind the tokens in `done`.
pub open spec fn grams_at(
    s: Seq<char>,
    i: int,
    len: int,
    max: int,
    done: Seq<AnalyzeTokenV>,
) -> Seq<AnalyzeTokenV>
    decreases s.len() + 1 - (i + len),
{
    if len > max || i + len > s.len() {
        done
    } else {
        grams_at(s, i, len + 1, max, done.push(run_token(s, i, i + len, 0)))
    }
}

/// The character n-grams that start at place `i` or behind it (only those at the start
/// of the text where `prefix_only`), behind the tokens in `done`.
pub open spec fn grams_from(
    s: Seq<char>,
    i: int,
    min: int,
    max: int,
    prefix_only: bool,
    done: Seq<AnalyzeTokenV>,
) -> Seq<AnalyzeTokenV>
    decreases s.len() + 1 - i,
{
    if i > s.len() || i > 0 && prefix_only {
        done
    } else {
        grams_from(s, i + 1, min, max, prefix_only, grams_at(s, i, min, max, done))
    }
}

/// The character n-grams of text from `min` to `max` characters (only those at
/// its start where `prefix_only`).
pub open spec fn ngram_tokens(text: Seq<char>, min: usize, max: usize, prefix_only: bool) -> Seq<
    AnalyzeTokenV,
> {
    grams_from(text, 0, min as int, max as int, prefix_only, seq![])
}

/// A token with its characters in lowercase.
pub uninterp spec fn lowered(token: Seq<char>) -> Seq<char>;

/// Whether a token is a stopword of a language, given by its English name; none
/// where the language has no list of stopwords.
pub uninterp spec fn stopword(token: Seq<char>, language: Seq<char>) -> Option<bool>;

/// The stem of a token in a language, given by its English name.
pub uninterp spec fn stem(token: Seq<char>, language: Seq<char>) -> Seq<char>;

/// The whitespace of ASCII (`char::is_ascii_whitespace`).
pub open spec fn at_ascii_space() -> spec_fn(char) -> bool {
    |c: char| c == ' ' || c == '\t' || c == '\n' || c == '\r' || c == '\u{c}'
}

/// What is neither a letter nor a number.
pub open spec fn at_punctuation() -> spec_fn(char) -> bool {
    |c: char| !alphanumeric(c)
}

/// The end of the run of characters from `i` on that none of `splits` is among.
pub open spec fn run_end(s: Seq<char>, splits: spec_fn(char) -> bool, i: int) -> int
    decreases s.len() - i,
{
    if 0 <= i < s.len() && !splits(s[i]) {
        run_end(s, splits, i + 1)
    } else {
        i
    }
}

/// The runs of characters from `i` on that none of `splits` is among, with their
/// offsets and positions, behind the tokens in `done`.
pub open spec fn split_from(
    s: Seq<char>,
    splits: spec_fn(char) -> bool,
    i: int,
    done: Seq<AnalyzeTokenV>,
) -> Seq<AnalyzeTokenV>
    decreases left(s.len(), i),
{
    if i >= s.len() {
        done
    } else if splits(s[i]) {
        split_from(s, splits, i + 1, done)
    } else {
        let j = past(i, run_end(s, splits, i));
        split_from(s, splits, j, done.push(run_token(s, i, j, done.len() as int)))
    }
}

/// The tokens of text split at some characters.
pub open spec fn split_text(s: Seq<char>, splits: spec_fn(char) -> bool) -> Seq<AnalyzeTokenV> {
    split_from(s, splits, 0, seq![])
}

/// `tantivy`'s `RawTokenizer`: the whole text is the one token.
#[verifier::external_body]
fn run_raw(text: &str) -> (r: Vec<AnalyzeToken>)
    ensures
        analyzed(r@) == whole_text(text@),
{
    let mut analyzer = TextAnalyzer::builder(RawTokenizer::default()).build();
    let mut stream = analyzer.token_stream(text);
    let mut out: Vec<AnalyzeToken> = Vec::new();
    while stream.advance() {
        let t = stream.token();
        out.push(AnalyzeToken { token: t.text.clone(), start_offset: t.offset_from, end_offset: t.offset_to, position: t.position });
    }
    out
}

/// `tantivy`'s `WhitespaceTokenizer`: the tokens are the runs of characters
/// between ASCII whitespace, with their byte offsets, counted from zero.
#[verifier::external_body]
fn run_whitespace(text: &str) -> (r: Vec<AnalyzeToken>)
    ensures
        analyzed(r@) == split_text(text@, at_ascii_space()),
{
    let mut analyzer = TextAnalyzer::builder(WhitespaceTokenizer::default()).build();
    let mut stream = analyzer.token_stream(text);
    let mut out: Vec<AnalyzeToken> = Vec::new();
    while stream.advance() {
        let t = stream.token();
        out.push(AnalyzeToken { token: t.text.clone(), start_offset: t.offset_from, end_offset: t.offset_to, position: t.position });
    }
    out
}

/// `tantivy`'s `SimpleTokenizer`: the tokens are the runs of characters that
/// `char::is_alphanumeric` holds of, with their byte offsets, counted from zero.
#[verifier::external_body]
fn run_simple(text: &str) -> (r: Vec<AnalyzeToken>)
    ensures
        analyzed(r@) == split_text(text@, at_punctuation()),
{
    let mut analyzer = TextAnalyzer::builder(SimpleTokenizer::default()).build();
    let mut stream = analyzer.token_stream(text);
    let mut out: Vec<AnalyzeToken> = Vec::new();
    while stream.advance() {
        let t = stream.token();
        out.push(AnalyzeToken { token: t.text.clone(), start_offset: t.offset_from, end_offset: t.offset_to, position: t.position });
    }
    out
}

/// `tantivy`'s `NgramTokenizer`: the tokens are the runs of `min` to `max` characters,
/// by their start and then by their length, with their byte offsets, all at position
/// zero. `NgramTokenizer::new` refuses a smallest length of zero or above the
/// greatest.
#[verifier::external_body]
fn run_ngram(text: &str, min: usize, max: usize, prefix_only: bool) -> (r: Vec<AnalyzeToken>)
    requires
        1 <= min <= max,
        max < usize::MAX,
    ensures
        analyzed(r@) == ngram_tokens(text@, min, max, prefix_only),
{
    let tokenizer = NgramTokenizer::new(min, max, prefix_only).unwrap();
    let mut analyzer = TextAnalyzer::builder(tokenizer).build();
    let mut stream = analyzer.token_stream(text);
    let mut out: Vec<AnalyzeToken> = Vec::new();
    while stream.advance() {
        let t = stream.token();
        out.push(AnalyzeToken { token: t.text.clone(), start_offset: t.offset_from, end_offset: t.offset_to, position: t.position });
    }
    out
}

/// `tantivy`'s `LowerCaser` on one token, which `RawTokenizer` hands it.
#[verifier::external_body]
fn lower_case(token: &str) -> (r: String)
    ensures
        r@ == lowered(token@),
{
    let mut analyzer = TextAnalyzer::builder(RawTokenizer::default()).filter(LowerCaser).build();
    let mut stream = analyzer.token_stream(token);
    stream.advance();
    stream.token().text.clone()
}

/// The names of `tantivy`'s languages that analyzers have.
pub open spec fn is_language(name: Seq<char>) -> bool {
    name == "Arabic"@
        || name == "Danish"@
        || name == "Dutch"@
        || name == "English"@
        || name == "Finnish"@
        || name == "French"@
        || name == "German"@
        || name == "Greek"@
        || name == "Hungarian"@
        || name == "Italian"@
        || name == "Norwegian"@
        || name == "Portuguese"@
        || name == "Romanian"@
        || name == "Russian"@
        || name == "Spanish"@
        || name == "Swedish"@
        || name == "Turkish"@
}

/// `tantivy`'s `StopWordFilter` of a language on one token, which `RawTokenizer`
/// hands it: whether it drops the token, if there is a filter for the language. The
/// language is read from its variant name with `serde_json::from_value`.
#[verifier::external_body]
fn is_stopword(token: &str, language: &str) -> (r: Option<bool>)
    requires
        is_language(language@),
    ensures
        r == stopword(token@, language@),
{
    let language: Language = serde_json::from_value(serde_json::Value::from(language)).unwrap();
    let stop = StopWordFilter::new(language)?;
    let mut analyzer = TextAnalyzer::builder(RawTokenizer::default()).filter(stop).build();
    let mut stream = analyzer.token_stream(token);
    Some(!stream.advance())
}

/// `tantivy`'s `Stemmer` of a language on one token, which `RawTokenizer` hands
/// it. The language is read from its variant name with `serde_json::from_value`.
#[verifier::external_body]
fn stem_token(token: &str, language: &str) -> (r: String)
    requires
        is_language(language@),
    ensures
        r@ == stem(token@, language@),
{
    let language: Language = serde_json::from_value(serde_json::Value::from(language)).unwrap();
    let mut analyzer = TextAnalyzer::builder(RawTokenizer::default()).filter(Stemmer::new(language)).build();
    let mut stream = analyzer.token_stream(token);
    stream.advance();
    stream.token().text.clone()
}

/// The whole text as one token.
pub open spec fn whole_text(text: Seq<char>) -> Seq<AnalyzeTokenV> {
    seq![
        AnalyzeTokenV {
            token: text,
            start_offset: 0,
            end_offset: utf8_len(text) as usize,
            position: 0,
        },
    ]
}

// ---------------------------------------------------------------------------
// Names
// ---------------------------------------------------------------------------

/// The registered tokenizer name of an analyzer name. The default, the
/// standard aliases, and anything unrecognized have the English one.
pub open spec fn tokenizer_name(analyzer: Option<Seq<char>>) -> Seq<char> {
    match analyzer {
        None => "aisearch_en"@,
        Some(name) => {
            if name == "keyword"@ {
                "aisearch_keyword"@
            } else if name == "whitespace"@ {
                "aisearch_whitespace"@
            } else if name == "alphanum"@ {
                "aisearch_alphanum"@
            } else if name == "latin"@ {
                "aisearch_latin"@
            } else if name == "ngram"@ || name == "ngram.microsoft"@ || name == "ngram.lucene"@ {
                "aisearch_ngram"@
            } else if name == "edgeNgram"@ || name == "edgeNgram.microsoft"@ || name == "edgeNgram.lucene"@ {
                "aisearch_edge_ngram"@
            } else if name == "chinese"@ || name == "japanese"@ || name == "korean"@ {
                "aisearch_cjk"@
            } else if name == "thai"@ {
                "aisearch_thai"@
            } else if name == "vietnamese"@ {
                "aisearch_vietnamese"@
            } else if name == "ar.microsoft"@ {
                "aisearch_ar"@
            } else if name == "da.microsoft"@ {
                "aisearch_da"@
            } else if name == "de.microsoft"@ {
                "aisearch_de"@
            } else if name == "el.microsoft"@ {
                "aisearch_el"@
            } else if name == "es.microsoft"@ {
                "aisearch_es"@
            } else if name == "fi.microsoft"@ {
                "aisearch_fi"@
            } else if name == "fr.microsoft"@ {
                "aisearch_fr"@
            } else if name == "hu.microsoft"@ {
                "aisearch_hu"@
            } else if name == "it.microsoft"@ {
                "aisearch_it"@
            } else if name == "nl.microsoft"@ {
                "aisearch_nl"@
            } else if name == "no.microsoft"@ {
                "aisearch_no"@
            } else if name == "pt.microsoft"@ {
                "aisearch_pt"@
            } else if name == "ro.microsoft"@ {
                "aisearch_ro"@
            } else if name == "ru.microsoft"@ {
                "aisearch_ru"@
            } else if name == "sv.microsoft"@ {
                "aisearch_sv"@
            } else if name == "tr.microsoft"@ {
                "aisearch_tr"@
            } else {
                "aisearch_en"@
            }
        },
    }
}

pub open spec fn opt_str(o: Option<&str>) -> Option<Seq<char>> {
    match o {
        Some(s) => Some(s@),
        None => None,
    }
}

/// Maps an analyzer name (or `None` for the index default) to the registered
/// tokenizer name used for both indexing and querying. Unknown names fall back
/// to the English analyzer.
pub fn analyzer_tokenizer_name(analyzer: Option<&str>) -> (r: &'static str)
    ensures
        r@ == tokenizer_name(opt_str(analyzer)),
{
    let name = match analyzer {
        None => {
            return "aisearch_en";
        },
        Some(name) => name,
    };
    if same_text(name, "keyword") {
        "aisearch_keyword"
    } else if same_text(name, "whitespace") {
        "aisearch_whitespace"
    } else if same_text(name, "alphanum") {
        "aisearch_alphanum"
    } else if same_text(name, "latin") {
        "aisearch_latin"
    } else if same_text(name, "ngram") || same_text(name, "ngram.microsoft") || same_text(name, "ngram.lucene") {
        "aisearch_ngram"
    } else if same_text(name, "edgeNgram") || same_text(name, "edgeNgram.microsoft") || same_text(name, "edgeNgram.lucene") {
        "aisearch_edge_ngram"
    } else if same_text(name, "chinese") || same_text(name, "japanese") || same_text(name, "korean") {
        "aisearch_cjk"
    } else if same_text(name, "thai") {
        "aisearch_thai"
    } else if same_text(name, "vietnamese") {
        "aisearch_vietnamese"
    } else if same_text(name, "ar.microsoft") {
        "aisearch_ar"
    } else if same_text(name, "da.microsoft") {
        "aisearch_da"
    } else if same_text(name, "de.microsoft") {
        "aisearch_de"
    } else if same_text(name, "el.microsoft") {
        "aisearch_el"
    } else if same_text(name, "es.microsoft") {
        "aisearch_es"
    } else if same_text(name, "fi.microsoft") {
        "aisearch_fi"
    } else if same_text(name, "fr.microsoft") {
        "aisearch_fr"
    } else if same_text(name, "hu.microsoft") {
        "aisearch_hu"
    } else if same_text(name, "it.microsoft") {
        "aisearch_it"
    } else if same_text(name, "nl.microsoft") {
        "aisearch_nl"
    } else if same_text(name, "no.microsoft") {
        "aisearch_no"
    } else if same_text(name, "pt.microsoft") {
        "aisearch_pt"
    } else if same_text(name, "ro.microsoft") {
        "aisearch_ro"
    } else if same_text(name, "ru.microsoft") {
        "aisearch_ru"
    } else if same_text(name, "sv.microsoft") {
        "aisearch_sv"
    } else if same_text(name, "tr.microsoft") {
        "aisearch_tr"
    } else {
        "aisearch_en"
    }
}

/// How an analyzer makes tokens.
#[derive(Debug, Clone, Copy, PartialEq, Eq, Structural)]
pub enum Pipeline {
    /// The whole text is one token.
    Keyword,
    /// Split at whitespace, as it is.
    Whitespace,
    /// Split at punctuation, as it is.
    Alphanum,
    /// Split at punctuation, lowercased.
    Lowered,
    /// Character n-grams, lowercased.
    Ngram,
    /// Character n-grams at the start, lowercased.
    EdgeNgram,
    /// Bigrams of CJK characters, lowercased.
    Cjk,
    /// Split at punctuation, lowercased, without stopwords, stemmed.
    Language,
}

/// How the analyzer of a tokenizer name makes tokens.
pub open spec fn pipeline_of(tokenizer: Seq<char>) -> Pipeline {
    if tokenizer == "aisearch_keyword"@ {
        Pipeline::Keyword
    } else if tokenizer == "aisearch_whitespace"@ {
        Pipeline::Whitespace
    } else if tokenizer == "aisearch_alphanum"@ {
        Pipeline::Alphanum
    } else if tokenizer == "aisearch_latin"@ || tokenizer == "aisearch_thai"@ || tokenizer
        == "aisearch_vietnamese"@ {
        Pipeline::Lowered
    } else if tokenizer == "aisearch_ngram"@ {
        Pipeline::Ngram
    } else if tokenizer == "aisearch_edge_ngram"@ {
        Pipeline::EdgeNgram
    } else if tokenizer == "aisearch_cjk"@ {
        Pipeline::Cjk
    } else {
        Pipeline::Language
    }
}

/// Decides how the analyzer of a tokenizer name makes tokens.
pub fn build_analyzer(tokenizer: &str) -> (r: Pipeline)
    ensures
        r == pipeline_of(tokenizer@),
{
    if same_text(tokenizer, "aisearch_keyword") {
        Pipeline::Keyword
    } else if same_text(tokenizer, "aisearch_whitespace") {
        Pipeline::Whitespace
    } else if same_text(tokenizer, "aisearch_alphanum") {
        Pipeline::Alphanum
    } else if same_text(tokenizer, "aisearch_latin") || same_text(tokenizer, "aisearch_thai")
        || same_text(tokenizer, "aisearch_vietnamese") {
        Pipeline::Lowered
    } else if same_text(tokenizer, "aisearch_ngram") {
        Pipeline::Ngram
    } else if same_text(tokenizer, "aisearch_edge_ngram") {
        Pipeline::EdgeNgram
    } else if same_text(tokenizer, "aisearch_cjk") {
        Pipeline::Cjk
    } else {
        Pipeline::Language
    }
}

/// The language of a tokenizer name: English where it names no other.
pub open spec fn language_of(tokenizer: Seq<char>) -> Seq<char> {
    if tokenizer == "aisearch_ar"@ {
        "Arabic"@
    } else if tokenizer == "aisearch_da"@ {
        "Danish"@
    } else if tokenizer == "aisearch_de"@ {
        "German"@
    } else if tokenizer == "aisearch_el"@ {
        "Greek"@
    } else if tokenizer == "aisearch_es"@ {
        "Spanish"@
    } else if tokenizer == "aisearch_fi"@ {
        "Finnish"@
    } else if tokenizer == "aisearch_fr"@ {
        "French"@
    } else if tokenizer == "aisearch_hu"@ {
        "Hungarian"@
    } else if tokenizer == "aisearch_it"@ {
        "Italian"@
    } else if tokenizer == "aisearch_nl"@ {
        "Dutch"@
    } else if tokenizer == "aisearch_no"@ {
        "Norwegian"@
    } else if tokenizer == "aisearch_pt"@ {
        "Portuguese"@
    } else if tokenizer == "aisearch_ro"@ {
        "Romanian"@
    } else if tokenizer == "aisearch_ru"@ {
        "Russian"@
    } else if tokenizer == "aisearch_sv"@ {
        "Swedish"@
    } else if tokenizer == "aisearch_tr"@ {
        "Turkish"@
    } else {
        "English"@
    }
}

/// The language of a tokenizer name, by its English name.
pub fn analyzer_language(tokenizer: &str) -> (r: &'static str)
    ensures
        r@ == language_of(tokenizer@),
{
    if same_text(tokenizer, "aisearch_ar") {
        "Arabic"
    } else if same_text(tokenizer, "aisearch_da") {
        "Danish"
    } else if same_text(tokenizer, "aisearch_de") {
        "German"
    } else if same_text(tokenizer, "aisearch_el") {
        "Greek"
    } else if same_text(tokenizer, "aisearch_es") {
        "Spanish"
    } else if same_text(tokenizer, "aisearch_fi") {
        "Finnish"
    } else if same_text(tokenizer, "aisearch_fr") {
        "French"
    } else if same_text(tokenizer, "aisearch_hu") {
        "Hungarian"
    } else if same_text(tokenizer, "aisearch_it") {
        "Italian"
    } else if same_text(tokenizer, "aisearch_nl") {
        "Dutch"
    } else if same_text(tokenizer, "aisearch_no") {
        "Norwegian"
    } else if same_text(tokenizer, "aisearch_pt") {
        "Portuguese"
    } else if same_text(tokenizer, "aisearch_ro") {
        "Romanian"
    } else if same_text(tokenizer, "aisearch_ru") {
        "Russian"
    } else if same_text(tokenizer, "aisearch_sv") {
        "Swedish"
    } else if same_text(tokenizer, "aisearch_tr") {
        "Turkish"
    } else {
        "English"
    }
}

/// The analyzer names that are recognized: those with a tokenizer of their own
/// and the standard and English aliases of the default.
pub open spec fn is_known_analyzer(name: Seq<char>) -> bool {
    name == "standard"@
        || name == "standard.lucene"@
        || name == "standard.asciiFolding"@
        || name == "keyword"@
        || name == "whitespace"@
        || name == "alphanum"@
        || name == "latin"@
        || name == "ngram"@
        || name == "ngram.microsoft"@
        || name == "ngram.lucene"@
        || name == "edgeNgram"@
        || name == "edgeNgram.microsoft"@
        || name == "edgeNgram.lucene"@
        || name == "simple"@
        || name == "classic"@
        || name == "stop"@
        || name == "en.microsoft"@
        || name == "en.lucene"@
        || name == "chinese"@
        || name == "japanese"@
        || name == "korean"@
        || name == "thai"@
        || name == "vietnamese"@
        || name == "ar.microsoft"@
        || name == "da.microsoft"@
        || name == "de.microsoft"@
        || name == "el.microsoft"@
        || name == "es.microsoft"@
        || name == "fi.microsoft"@
        || name == "fr.microsoft"@
        || name == "hu.microsoft"@
        || name == "it.microsoft"@
        || name == "nl.microsoft"@
        || name == "no.microsoft"@
        || name == "pt.microsoft"@
        || name == "ro.microsoft"@
        || name == "ru.microsoft"@
        || name == "sv.microsoft"@
        || name == "tr.microsoft"@
}

/// The recognized analyzer names, as a list.
pub open spec fn known_analyzer_list() -> Seq<char> {
    "standard, standard.lucene, standard.asciiFolding, keyword, whitespace, alphanum, latin, ngram, ngram.microsoft, ngram.lucene, edgeNgram, edgeNgram.microsoft, edgeNgram.lucene, simple, classic, stop, en.microsoft, en.lucene, chinese, japanese, korean, thai, vietnamese, ar.microsoft, da.microsoft, de.microsoft, el.microsoft, es.microsoft, fi.microsoft, fr.microsoft, hu.microsoft, it.microsoft, nl.microsoft, no.microsoft, pt.microsoft, ro.microsoft, ru.microsoft, sv.microsoft, tr.microsoft"@
}

/// Whether an analyzer name is recognized.
pub fn known_analyzer(name: &str) -> (r: bool)
    ensures
        r == is_known_analyzer(name@),
{
    same_text(name, "standard")
        || same_text(name, "standard.lucene")
        || same_text(name, "standard.asciiFolding")
        || same_text(name, "keyword")
        || same_text(name, "whitespace")
        || same_text(name, "alphanum")
        || same_text(name, "latin")
        || same_text(name, "ngram")
        || same_text(name, "ngram.microsoft")
        || same_text(name, "ngram.lucene")
        || same_text(name, "edgeNgram")
        || same_text(name, "edgeNgram.microsoft")
        || same_text(name, "edgeNgram.lucene")
        || same_text(name, "simple")
        || same_text(name, "classic")
        || same_text(name, "stop")
        || same_text(name, "en.microsoft")
        || same_text(name, "en.lucene")
        || same_text(name, "chinese")
        || same_text(name, "japanese")
        || same_text(name, "korean")
        || same_text(name, "thai")
        || same_text(name, "vietnamese")
        || same_text(name, "ar.microsoft")
        || same_text(name, "da.microsoft")
        || same_text(name, "de.microsoft")
        || same_text(name, "el.microsoft")
        || same_text(name, "es.microsoft")
        || same_text(name, "fi.microsoft")
        || same_text(name, "fr.microsoft")
        || same_text(name, "hu.microsoft")
        || same_text(name, "it.microsoft")
        || same_text(name, "nl.microsoft")
        || same_text(name, "no.microsoft")
        || same_text(name, "pt.microsoft")
        || same_text(name, "ro.microsoft")
        || same_text(name, "ru.microsoft")
        || same_text(name, "sv.microsoft")
        || same_text(name, "tr.microsoft")
}

/// The recognized analyzer names, as a list for messages.
pub fn known_analyzers_text() -> (r: &'static str)
    ensures
        r@ == known_analyzer_list(),
{
    "standard, standard.lucene, standard.asciiFolding, keyword, whitespace, alphanum, latin, ngram, ngram.microsoft, ngram.lucene, edgeNgram, edgeNgram.microsoft, edgeNgram.lucene, simple, classic, stop, en.microsoft, en.lucene, chinese, japanese, korean, thai, vietnamese, ar.microsoft, da.microsoft, de.microsoft, el.microsoft, es.microsoft, fi.microsoft, fr.microsoft, hu.microsoft, it.microsoft, nl.microsoft, no.microsoft, pt.microsoft, ro.microsoft, ru.microsoft, sv.microsoft, tr.microsoft"
}

// ---------------------------------------------------------------------------
// CJK bigrams
// ---------------------------------------------------------------------------

/// The characters of CJK scripts (Han, Kana, or Hangul).
pub open spec fn is_cjk(c: char) -> bool {
    let u = c as u32;
    // CJK Unified Ideographs Extension A, CJK Unified Ideographs
    0x3400 <= u <= 0x4DBF || 0x4E00 <= u <= 0x9FFF
    // Hiragana and Katakana, Katakana Phonetic Extensions, Halfwidth Katakana
     || 0x3040 <= u <= 0x30FF || 0x31F0 <= u <= 0x31FF || 0xFF66 <= u <= 0xFF9D
    // Hangul Jamo, Hangul Compatibility Jamo, Hangul Syllables
     || 0x1100 <= u <= 0x11FF || 0x3130 <= u <= 0x318F || 0xAC00 <= u <= 0xD7AF
}

/// Whether a character belongs to a CJK script (Han, Kana, or Hangul), for
/// the CJK bigram tokenizer.
pub fn is_cjk_char(c: char) -> (r: bool)
    ensures
        r == is_cjk(c),
{
    let u: u32 = c as u32;
    (0x3400 <= u && u <= 0x4DBF) || (0x4E00 <= u && u <= 0x9FFF) || (0x3040 <= u && u <= 0x30FF)
        || (0x31F0 <= u && u <= 0x31FF) || (0xFF66 <= u && u <= 0xFF9D) || (0x1100 <= u && u
        <= 0x11FF) || (0x3130 <= u && u <= 0x318F) || (0xAC00 <= u && u <= 0xD7AF)
}

/// The end of the run of CJK characters that `i` characters lead to.
pub open spec fn cjk_run_end(s: Seq<char>, i: int) -> int
    decreases s.len() - i,
{
    if i < s.len() && is_cjk(s[i]) {
        cjk_run_end(s, i + 1)
    } else {
        i
    }
}

/// The end of the run of characters that are neither whitespace nor CJK.
pub open spec fn other_run_end(s: Seq<char>, i: int) -> int
    decreases s.len() - i,
{
    if i < s.len() && !is_space(s[i]) && !is_cjk(s[i]) {
        other_run_end(s, i + 1)
    } else {
        i
    }
}

/// The characters from `i` to `j` as a token at a position, with the bytes before
/// and up to its end.
pub open spec fn run_token(s: Seq<char>, i: int, j: int, position: int) -> AnalyzeTokenV {
    AnalyzeTokenV {
        token: s.subrange(i, j),
        start_offset: utf8_len(s.take(i)) as usize,
        end_offset: utf8_len(s.take(j)) as usize,
        position: position as usize,
    }
}

/// The overlapping bigrams from `i` to `j`, behind the tokens in `done`.
pub open spec fn bigrams(s: Seq<char>, i: int, j: int, done: Seq<AnalyzeTokenV>) -> Seq<
    AnalyzeTokenV,
>
    decreases j - i,
{
    if i + 1 >= j {
        done
    } else {
        bigrams(s, i + 1, j, done.push(run_token(s, i, i + 2, done.len() as int)))
    }
}

/// The tokens from a place on, behind those in `done`: a run of CJK characters
/// gives its overlapping bigrams (or its one character), a run of other
/// characters is one token.
pub open spec fn cjk_from(s: Seq<char>, i: int, done: Seq<AnalyzeTokenV>) -> Seq<AnalyzeTokenV>
    decreases left(s.len(), i),
{
    if i >= s.len() {
        done
    } else if is_space(s[i]) {
        cjk_from(s, i + 1, done)
    } else {
        if is_cjk(s[i]) {
            let j = past(i, cjk_run_end(s, i));
            if j == i + 1 {
                cjk_from(s, j, done.push(run_token(s, i, j, done.len() as int)))
            } else {
                cjk_from(s, j, bigrams(s, i, j, done))
            }
        } else {
            let j = past(i, other_run_end(s, i));
            cjk_from(s, j, done.push(run_token(s, i, j, done.len() as int)))
        }
    }
}

/// Splits text into CJK tokens: runs of CJK characters are emitted as
/// overlapping bigrams (a single character for a one-character run), and runs
/// of other characters are emitted verbatim as single tokens.
pub fn cjk_tokens(text: &str) -> (r: Vec<AnalyzeToken>)
    ensures
        analyzed(r@) == cjk_from(text@, 0, seq![]),
{
    broadcast use lemma_analyzed_push;

    let s = chars_of(text);
    let n: usize = s.len();
    let total = byte_len(text);
    let mut out: Vec<AnalyzeToken> = Vec::new();
    let mut i: usize = 0;
    let mut bytes: usize = 0;
    assert(analyzed(out@) =~= seq![]);
    assert(s@.take(0) =~= seq![]);
    while i < n
        invariant
            s@ == text@,
            n == s@.len(),
            total == utf8_len(s@),
            i <= n,
            bytes == utf8_len(s@.take(i as int)),
            cjk_from(text@, 0, seq![]) == cjk_from(s@, i as int, analyzed(out@)),
        decreases n - i,
    {
        if space(s[i]) {
            proof {
                lemma_utf8_len_step(s@, i as int);
            }
            bytes += char_width(s[i]);
            i += 1;
            continue ;
        }
        let ghost done = analyzed(out@);
        let mut j: usize = i;
        let mut end: usize = bytes;
        if is_cjk_char(s[i]) {
            while j < n && is_cjk_char(s[j])
                invariant
                    n == s@.len(),
                    total == utf8_len(s@),
                    i <= j <= n,
                    end == utf8_len(s@.take(j as int)),
                    cjk_run_end(s@, i as int) == cjk_run_end(s@, j as int),
                    j == i ==> i < n && is_cjk(s@[i as int]),
                decreases n - j,
            {
                proof {
                    lemma_utf8_len_step(s@, j as int);
                }
                end += char_width(s[j]);
                j += 1;
            }
            if j == i + 1 {
                proof {
                    lemma_utf8_len_mono(s@, i as int, j as int);
                }
                let position: usize = out.len();
                out.push(
                    AnalyzeToken {
                        token: text_between(&s, i, j),
                        start_offset: bytes,
                        end_offset: end,
                        position,
                    },
                );
                assert(analyzed(out@) == done.push(
                    run_token(s@, i as int, j as int, done.len() as int),
                ));
            } else {
                let mut k: usize = i;
                let mut offset: usize = bytes;
                while k + 1 < j
                    invariant
                        n == s@.len(),
                        total == utf8_len(s@),
                        i <= k < j <= n,
                        offset == utf8_len(s@.take(k as int)),
                        bigrams(s@, i as int, j as int, done) == bigrams(
                            s@,
                            k as int,
                            j as int,
                            analyzed(out@),
                        ),
                    decreases j - k,
                {
                    let ghost before = analyzed(out@);
                    proof {
                        lemma_utf8_len_step(s@, k as int);
                        lemma_utf8_len_step(s@, k + 1);
                    }
                    let next = offset + char_width(s[k]);
                    let position: usize = out.len();
                    let token = AnalyzeToken {
                        token: text_between(&s, k, k + 2),
                        start_offset: offset,
                        end_offset: next + char_width(s[k + 1]),
                        position,
                    };
                    out.push(token);
                    assert(analyzed(out@) == before.push(
                        run_token(s@, k as int, k + 2, before.len() as int),
                    ));
                    offset = next;
                    k += 1;
                }
            }
        } else {
            while j < n && !space(s[j]) && !is_cjk_char(s[j])
                invariant
                    n == s@.len(),
                    total == utf8_len(s@),
                    i <= j <= n,
                    end == utf8_len(s@.take(j as int)),
                    other_run_end(s@, i as int) == other_run_end(s@, j as int),
                    j == i ==> i < n && !is_cjk(s@[i as int]) && !is_space(s@[i as int]),
                decreases n - j,
            {
                proof {
                    lemma_utf8_len_step(s@, j as int);
                }
                end += char_width(s[j]);
                j += 1;
            }
            proof {
                lemma_utf8_len_mono(s@, i as int, j as int);
            }
            let position: usize = out.len();
            out.push(
                AnalyzeToken {
                    token: text_between(&s, i, j),
                    start_offset: bytes,
                    end_offset: end,
                    position,
                },
            );
            assert(analyzed(out@) == done.push(
                run_token(s@, i as int, j as int, done.len() as int),
            ));
        }
        bytes = end;
        i = j;
    }
    out
}

/// The first `n` tokens in lowercase, without those of `limit` bytes or more.
pub open spec fn lowered_list(tokens: Seq<AnalyzeTokenV>, n: int, limit: usize) -> Seq<
    AnalyzeTokenV,
>
    decreases n,
{
    if n <= 0 {
        seq![]
    } else {
        let rest = lowered_list(tokens, n - 1, limit);
        let t = tokens[n - 1];
        if utf8_len(t.token) < limit {
            rest.push(AnalyzeTokenV { token: lowered(t.token), ..t })
        } else {
            rest
        }
    }
}

/// Tokens in lowercase, without those of `limit` bytes or more.
pub open spec fn lowered_tokens(tokens: Seq<AnalyzeTokenV>, limit: usize) -> Seq<AnalyzeTokenV> {
    lowered_list(tokens, tokens.len() as int, limit)
}

fn lower_tokens(tokens: &Vec<AnalyzeToken>, limit: usize) -> (r: Vec<AnalyzeToken>)
    ensures
        analyzed(r@) == lowered_tokens(analyzed(tokens@), limit),
{
    broadcast use lemma_analyzed_push;

    let ghost all = analyzed(tokens@);
    let mut out: Vec<AnalyzeToken> = Vec::new();
    let mut i: usize = 0;
    assert(analyzed(out@) =~= seq![]);
    while i < tokens.len()
        invariant
            all == analyzed(tokens@),
            i <= tokens@.len(),
            analyzed(out@) == lowered_list(all, i as int, limit),
        decreases tokens@.len() - i,
    {
        assert(all[i as int] == tokens@[i as int]@);
        let token = tokens[i].token.as_str();
        if byte_len(token) < limit {
            let ghost before = analyzed(out@);
            let t = AnalyzeToken {
                token: lower_case(token),
                start_offset: tokens[i].start_offset,
                end_offset: tokens[i].end_offset,
                position: tokens[i].position,
            };
            out.push(t);
            assert(analyzed(out@) == before.push(t@));
        }
        i += 1;
    }
    out
}

/// The stems of the first `n` tokens in a language, without its stopwords. A
/// language without a list of stopwords has none.
pub open spec fn stemmed_list(tokens: Seq<AnalyzeTokenV>, n: int, language: Seq<char>) -> Seq<
    AnalyzeTokenV,
>
    decreases n,
{
    if n <= 0 {
        seq![]
    } else {
        let rest = stemmed_list(tokens, n - 1, language);
        let t = tokens[n - 1];
        if stopword(t.token, language) == Some(true) {
            rest
        } else {
            rest.push(AnalyzeTokenV { token: stem(t.token, language), ..t })
        }
    }
}

/// The stems of tokens in a language, without its stopwords.
pub open spec fn stemmed_tokens(tokens: Seq<AnalyzeTokenV>, language: Seq<char>) -> Seq<
    AnalyzeTokenV,
> {
    stemmed_list(tokens, tokens.len() as int, language)
}

fn stem_tokens(tokens: &Vec<AnalyzeToken>, language: &str) -> (r: Vec<AnalyzeToken>)
    requires
        is_language(language@),
    ensures
        analyzed(r@) == stemmed_tokens(analyzed(tokens@), language@),
{
    broadcast use lemma_analyzed_push;

    let ghost all = analyzed(tokens@);
    let mut out: Vec<AnalyzeToken> = Vec::new();
    let mut i: usize = 0;
    assert(analyzed(out@) =~= seq![]);
    while i < tokens.len()
        invariant
            all == analyzed(tokens@),
            is_language(language@),
            i <= tokens@.len(),
            analyzed(out@) == stemmed_list(all, i as int, language@),
        decreases tokens@.len() - i,
    {
        assert(all[i as int] == tokens@[i as int]@);
        let token = tokens[i].token.as_str();
        let stops = match is_stopword(token, language) {
            Some(stops) => stops,
            None => false,
        };
        if !stops {
            let ghost before = analyzed(out@);
            let t = AnalyzeToken {
                token: stem_token(token, language),
                start_offset: tokens[i].start_offset,
                end_offset: tokens[i].end_offset,
                position: tokens[i].position,
            };
            out.push(t);
            assert(analyzed(out@) == before.push(t@));
        }
        i += 1;
    }
    out
}

// ---------------------------------------------------------------------------
// Analysis
// ---------------------------------------------------------------------------

/// The byte length from which on the filtering analyzers drop a token.
pub const TOKEN_LENGTH_LIMIT: usize = 40;

/// The lengths of character n-grams.
pub const MIN_NGRAM: usize = 1;

pub const MAX_NGRAM: usize = 15;

/// The tokens that the analyzer of a tokenizer name makes of a text.
pub open spec fn pipeline_tokens(text: Seq<char>, tokenizer: Seq<char>) -> Seq<AnalyzeTokenV> {
    match pipeline_of(tokenizer) {
        Pipeline::Keyword => whole_text(text),
        Pipeline::Whitespace => split_text(text, at_ascii_space()),
        Pipeline::Alphanum => split_text(text, at_punctuation()),
        Pipeline::Lowered => lowered_tokens(
            split_text(text, at_punctuation()),
            TOKEN_LENGTH_LIMIT,
        ),
        Pipeline::Ngram => lowered_tokens(
            ngram_tokens(text, MIN_NGRAM, MAX_NGRAM, false),
            TOKEN_LENGTH_LIMIT,
        ),
        Pipeline::EdgeNgram => lowered_tokens(
            ngram_tokens(text, MIN_NGRAM, MAX_NGRAM, true),
            TOKEN_LENGTH_LIMIT,
        ),
        Pipeline::Cjk => lowered_tokens(cjk_from(text, 0, seq![]), TOKEN_LENGTH_LIMIT),
        Pipeline::Language => stemmed_tokens(
            lowered_tokens(split_text(text, at_punctuation()), TOKEN_LENGTH_LIMIT),
            language_of(tokenizer),
        ),
    }
}

/// The tokens that the analyzer of a tokenizer name makes of a text, none of the
/// empty text.
pub open spec fn tokenized(text: Seq<char>, tokenizer: Seq<char>) -> Seq<AnalyzeTokenV> {
    if text.len() == 0 {
        seq![]
    } else {
        pipeline_tokens(text, tokenizer)
    }
}

/// The tokens that the analyzer of a name makes of a text.
pub open spec fn analysis(text: Seq<char>, analyzer: Option<Seq<char>>) -> Seq<AnalyzeTokenV> {
    tokenized(text, tokenizer_name(analyzer))
}

/// The terms that the analyzer of a name makes of a text.
pub open spec fn terms_of(text: Seq<char>, analyzer: Option<Seq<char>>) -> Seq<Seq<char>> {
    analysis(text, analyzer).map_values(|t: AnalyzeTokenV| t.token)
}

/// Tokenizes text with the analyzer of a registered tokenizer name.
pub fn tokenize_with(tokenizer: &str, text: &str) -> (r: Vec<AnalyzeToken>)
    ensures
        analyzed(r@) == pipeline_tokens(text@, tokenizer@),
{
    match build_analyzer(tokenizer) {
        Pipeline::Keyword => run_raw(text),
        Pipeline::Whitespace => run_whitespace(text),
        Pipeline::Alphanum => run_simple(text),
        Pipeline::Lowered => lower_tokens(&run_simple(text), TOKEN_LENGTH_LIMIT),
        Pipeline::Ngram => lower_tokens(
            &run_ngram(text, MIN_NGRAM, MAX_NGRAM, false),
            TOKEN_LENGTH_LIMIT,
        ),
        Pipeline::EdgeNgram => lower_tokens(
            &run_ngram(text, MIN_NGRAM, MAX_NGRAM, true),
            TOKEN_LENGTH_LIMIT,
        ),
        Pipeline::Cjk => lower_tokens(&cjk_tokens(text), TOKEN_LENGTH_LIMIT),
        Pipeline::Language => stem_tokens(
            &lower_tokens(&run_simple(text), TOKEN_LENGTH_LIMIT),
            analyzer_language(tokenizer),
        ),
    }
}

/// Runs the analyzer of a name on a text, as it is run on the texts of a
/// document.
pub(crate) fn run_analyzer(text: &str, analyzer: Option<&str>) -> (r: Vec<AnalyzeToken>)
    ensures
        analyzed(r@) == pipeline_tokens(text@, tokenizer_name(opt_str(analyzer))),
{
    tokenize_with(analyzer_tokenizer_name(analyzer), text)
}

/// The registered tokenizer names.
pub open spec fn registered_names() -> Seq<Seq<char>> {
    seq![
        "aisearch_en"@,
        "aisearch_keyword"@,
        "aisearch_whitespace"@,
        "aisearch_alphanum"@,
        "aisearch_latin"@,
        "aisearch_ngram"@,
        "aisearch_edge_ngram"@,
        "aisearch_cjk"@,
        "aisearch_thai"@,
        "aisearch_vietnamese"@,
        "aisearch_ar"@,
        "aisearch_da"@,
        "aisearch_de"@,
        "aisearch_el"@,
        "aisearch_es"@,
        "aisearch_fi"@,
        "aisearch_fr"@,
        "aisearch_hu"@,
        "aisearch_it"@,
        "aisearch_nl"@,
        "aisearch_no"@,
        "aisearch_pt"@,
        "aisearch_ro"@,
        "aisearch_ru"@,
        "aisearch_sv"@,
        "aisearch_tr"@,
    ]
}

/// The registered tokenizer names: every supported analyzer has one of them, so
/// any field's declared analyzer resolves.
pub fn registered_tokenizers() -> (r: Vec<&'static str>)
    ensures
        r@.map_values(|s: &'static str| s@) == registered_names(),
{
    let r: Vec<&'static str> = vec![
        "aisearch_en",
        "aisearch_keyword",
        "aisearch_whitespace",
        "aisearch_alphanum",
        "aisearch_latin",
        "aisearch_ngram",
        "aisearch_edge_ngram",
        "aisearch_cjk",
        "aisearch_thai",
        "aisearch_vietnamese",
        "aisearch_ar",
        "aisearch_da",
        "aisearch_de",
        "aisearch_el",
        "aisearch_es",
        "aisearch_fi",
        "aisearch_fr",
        "aisearch_hu",
        "aisearch_it",
        "aisearch_nl",
        "aisearch_no",
        "aisearch_pt",
        "aisearch_ro",
        "aisearch_ru",
        "aisearch_sv",
        "aisearch_tr",
    ];
    assert(r@.map_values(|s: &'static str| s@) =~= registered_names());
    r
}

/// The registered names are the library's own.
pub(crate) proof fn lemma_registered_name_is_not_raw(i: int)
    requires
        0 <= i < registered_names().len(),
    ensures
        registered_names()[i] != "raw"@,
{
    reveal_strlit("raw");
    reveal_strlit("aisearch_en");
    reveal_strlit("aisearch_keyword");
    reveal_strlit("aisearch_whitespace");
    reveal_strlit("aisearch_alphanum");
    reveal_strlit("aisearch_latin");
    reveal_strlit("aisearch_ngram");
    reveal_strlit("aisearch_edge_ngram");
    reveal_strlit("aisearch_cjk");
    reveal_strlit("aisearch_thai");
    reveal_strlit("aisearch_vietnamese");
    reveal_strlit("aisearch_ar");
    reveal_strlit("aisearch_da");
    reveal_strlit("aisearch_de");
    reveal_strlit("aisearch_el");
    reveal_strlit("aisearch_es");
    reveal_strlit("aisearch_fi");
    reveal_strlit("aisearch_fr");
    reveal_strlit("aisearch_hu");
    reveal_strlit("aisearch_it");
    reveal_strlit("aisearch_nl");
    reveal_strlit("aisearch_no");
    reveal_strlit("aisearch_pt");
    reveal_strlit("aisearch_ro");
    reveal_strlit("aisearch_ru");
    reveal_strlit("aisearch_sv");
    reveal_strlit("aisearch_tr");
    assert(registered_names()[i].len() > 3);
}

/// The tokenizer name of every analyzer name is registered.
pub proof fn law_every_analyzer_is_registered(analyzer: Option<Seq<char>>)
    ensures
        registered_names().contains(tokenizer_name(analyzer)),
{
    let all = registered_names();
    let name = tokenizer_name(analyzer);
    assert(exists|i: int| 0 <= i < all.len() && all[i] == name) by {
        assert(all[0] == "aisearch_en"@);
        assert(all[1] == "aisearch_keyword"@);
        assert(all[2] == "aisearch_whitespace"@);
        assert(all[3] == "aisearch_alphanum"@);
        assert(all[4] == "aisearch_latin"@);
        assert(all[5] == "aisearch_ngram"@);
        assert(all[6] == "aisearch_edge_ngram"@);
        assert(all[7] == "aisearch_cjk"@);
        assert(all[8] == "aisearch_thai"@);
        assert(all[9] == "aisearch_vietnamese"@);
        assert(all[10] == "aisearch_ar"@);
        assert(all[11] == "aisearch_da"@);
        assert(all[12] == "aisearch_de"@);
        assert(all[13] == "aisearch_el"@);
        assert(all[14] == "aisearch_es"@);
        assert(all[15] == "aisearch_fi"@);
        assert(all[16] == "aisearch_fr"@);
        assert(all[17] == "aisearch_hu"@);
        assert(all[18] == "aisearch_it"@);
        assert(all[19] == "aisearch_nl"@);
        assert(all[20] == "aisearch_no"@);
        assert(all[21] == "aisearch_pt"@);
        assert(all[22] == "aisearch_ro"@);
        assert(all[23] == "aisearch_ru"@);
        assert(all[24] == "aisearch_sv"@);
        assert(all[25] == "aisearch_tr"@);
    }
}

/// Tokenizes text for the analyze-text endpoint under the requested analyzer
/// name: `keyword` (whole input as a single verbatim token), `whitespace`
/// (whitespace split, no lowercasing), `alphanum` (punctuation split, no
/// lowercasing), `latin` (lowercasing, no stemming or stopword removal),
/// `ngram` / `edgeNgram` (character n-grams), CJK (bigrams), the `*.microsoft`
/// language analyzers, and the English analyzer for `None` and the standard
/// aliases.
pub fn analyze_with_offsets_and_analyzer(text: &str, analyzer: Option<&str>) -> (r: Vec<
    AnalyzeToken,
>)
    ensures
        analyzed(r@) == analysis(text@, opt_str(analyzer)),
{
    if text.is_empty() {
        let r: Vec<AnalyzeToken> = Vec::new();
        assert(analyzed(r@) =~= seq![]);
        return r;
    }
    run_analyzer(text, analyzer)
}

/// Tokenizes text with the default (English) analyzer, returning structured
/// tokens with offsets and positions.
pub fn analyze_with_offsets(text: &str) -> (r: Vec<AnalyzeToken>)
    ensures
        analyzed(r@) == analysis(text@, None),
{
    analyze_with_offsets_and_analyzer(text, None)
}

/// Tokenizes search text with the analyzer for `analyzer` (the English
/// analyzer when `None`), so query terms match the analyzed terms stored in
/// the index.
pub fn analyze_with(text: &str, analyzer: Option<&str>) -> (r: Vec<String>)
    ensures
        texts(r@) == terms_of(text@, opt_str(analyzer)),
{
    broadcast use lemma_texts_push;

    let tokens = analyze_with_offsets_and_analyzer(text, analyzer);
    let ghost all = terms_of(text@, opt_str(analyzer));
    let mut out: Vec<String> = Vec::new();
    let mut i: usize = 0;
    assert(texts(out@) =~= all.take(0));
    while i < tokens.len()
        invariant
            analyzed(tokens@) == analysis(text@, opt_str(analyzer)),
            all == terms_of(text@, opt_str(analyzer)),
            i <= tokens@.len(),
            texts(out@) == all.take(i as int),
        decreases tokens@.len() - i,
    {
        let ghost before = texts(out@);
        let token = tokens[i].token.clone();
        out.push(token);
        assert(texts(out@) == before.push(token@));
        assert(analyzed(tokens@)[i as int] == tokens@[i as int]@);
        assert(all[i as int] == token@);
        i += 1;
        assert(texts(out@) =~= all.take(i as int));
    }
    assert(all.take(all.len() as int) =~= all);
    out
}

/// Tokenizes search text with the default (English) analyzer.
pub fn analyze(text: &str) -> (r: Vec<String>)
    ensures
        texts(r@) == terms_of(text@, None),
{
    analyze_with(text, None)
}

/// The empty text has no terms, whatever the analyzer.
pub proof fn law_empty_text_has_no_terms(analyzer: Option<Seq<char>>)
    ensures
        terms_of(seq![], analyzer) == Seq::<Seq<char>>::empty(),
{
    assert(terms_of(seq![], analyzer) =~= Seq::<Seq<char>>::empty());
}

/// The keyword analyzer keeps a text as the one term it is.
pub proof fn law_keyword_keeps_text(text: Seq<char>)
    requires
        text.len() > 0,
    ensures
        terms_of(text, Some("keyword"@)) == seq![text],
{
    assert(terms_of(text, Some("keyword"@)) =~= seq![text]);
}

/// The positions of CJK tokens count up from zero.
pub proof fn law_cjk_positions(s: Seq<char>, i: int)
    requires
        0 <= i < cjk_from(s, 0, seq![]).len(),
    ensures
        cjk_from(s, 0, seq![])[i].position == i as usize,
{
    lemma_cjk_counted(s, 0, seq![]);
}

pub open spec fn counted(tokens: Seq<AnalyzeTokenV>) -> bool {
    forall|k: int| 0 <= k < tokens.len() ==> (#[trigger] tokens[k]).position == k as usize
}

proof fn lemma_bigrams_counted(s: Seq<char>, i: int, j: int, done: Seq<AnalyzeTokenV>)
    requires
        counted(done),
    ensures
        counted(bigrams(s, i, j, done)),
    decreases j - i,
{
    if i + 1 < j {
        let token = run_token(s, i, i + 2, done.len() as int);
        assert(counted(done.push(token)));
        lemma_bigrams_counted(s, i + 1, j, done.push(token));
    }
}

proof fn lemma_cjk_counted(s: Seq<char>, i: int, done: Seq<AnalyzeTokenV>)
    requires
        counted(done),
    ensures
        counted(cjk_from(s, i, done)),
    decreases left(s.len(), i),
{
    if i < s.len() {
        if is_space(s[i]) {
            lemma_cjk_counted(s, i + 1, done);
        } else {
            if is_cjk(s[i]) {
                let j = past(i, cjk_run_end(s, i));
                if j == i + 1 {
                    let next = done.push(run_token(s, i, j, done.len() as int));
                    assert(counted(next));
                    lemma_cjk_counted(s, j, next);
                } else {
                    lemma_bigrams_counted(s, i, j, done);
                    lemma_cjk_counted(s, j, bigrams(s, i, j, done));
                }
            } else {
                let j = past(i, other_run_end(s, i));
                let next = done.push(run_token(s, i, j, done.len() as int));
                assert(counted(next));
                lemma_cjk_counted(s, j, next);
            }
        }
    }
}

/// Whether tokens hold text, none of the characters that text is split at, and
/// count up from zero.
pub open spec fn unsplit(tokens: Seq<AnalyzeTokenV>, splits: spec_fn(char) -> bool) -> bool {
    &&& counted(tokens)
    &&& forall|k: int| 0 <= k < tokens.len() ==> (#[trigger] tokens[k]).token.len() > 0
    &&& forall|k: int, c: int|
        0 <= k < tokens.len() && 0 <= c < tokens[k].token.len() ==> !splits(
            #[trigger] tokens[k].token[c],
        )
}

proof fn lemma_run_end(s: Seq<char>, splits: spec_fn(char) -> bool, i: int)
    requires
        0 <= i <= s.len(),
    ensures
        i <= run_end(s, splits, i) <= s.len(),
        i < s.len() && !splits(s[i]) ==> i < run_end(s, splits, i),
        forall|k: int| i <= k < run_end(s, splits, i) ==> !splits(#[trigger] s[k]),
    decreases s.len() - i,
{
    if i < s.len() && !splits(s[i]) {
        lemma_run_end(s, splits, i + 1);
    }
}

proof fn lemma_split_from(
    s: Seq<char>,
    splits: spec_fn(char) -> bool,
    i: int,
    done: Seq<AnalyzeTokenV>,
)
    requires
        0 <= i,
        unsplit(done, splits),
    ensures
        unsplit(split_from(s, splits, i, done), splits),
    decreases left(s.len(), i),
{
    if i < s.len() {
        if splits(s[i]) {
            lemma_split_from(s, splits, i + 1, done);
        } else {
            lemma_run_end(s, splits, i);
            let j = past(i, run_end(s, splits, i));
            let token = run_token(s, i, j, done.len() as int);
            let next = done.push(token);
            assert forall|k: int, c: int|
                0 <= k < next.len() && 0 <= c < next[k].token.len() implies !splits(
                #[trigger] next[k].token[c],
            ) by {
                if k < done.len() {
                    assert(!splits(done[k].token[c]));
                } else {
                    assert(next[k].token[c] == s[i + c]);
                }
            }
            lemma_split_from(s, splits, j, next);
        }
    }
}

/// Where text is split at some characters, every token holds text and none of
/// those characters, and the positions of the tokens count up from zero.
pub proof fn law_split_tokens(s: Seq<char>, splits: spec_fn(char) -> bool)
    ensures
        unsplit(split_text(s, splits), splits),
{
    lemma_split_from(s, splits, 0, seq![]);
}

/// Whether a token is the part of a text between its byte offsets.
pub open spec fn stands_in(t: AnalyzeTokenV, s: Seq<char>) -> bool {
    exists|i: int, j: int|
        0 <= i <= j <= s.len() && t == #[trigger] run_token(s, i, j, t.position as int)
}

/// Whether tokens are parts of a text, each between its byte offsets.
pub open spec fn tokens_stand_in(tokens: Seq<AnalyzeTokenV>, s: Seq<char>) -> bool {
    forall|k: int| 0 <= k < tokens.len() ==> stands_in(#[trigger] tokens[k], s)
}

proof fn lemma_token_stands(tokens: Seq<AnalyzeTokenV>, s: Seq<char>, i: int, j: int)
    requires
        tokens_stand_in(tokens, s),
        0 <= i <= j <= s.len(),
    ensures
        tokens_stand_in(tokens.push(run_token(s, i, j, tokens.len() as int)), s),
{
    let token = run_token(s, i, j, tokens.len() as int);
    assert(token == run_token(s, i, j, token.position as int));
    assert(stands_in(token, s));
}

proof fn lemma_bigrams_stand(s: Seq<char>, i: int, j: int, done: Seq<AnalyzeTokenV>)
    requires
        0 <= i <= j <= s.len(),
        tokens_stand_in(done, s),
    ensures
        tokens_stand_in(bigrams(s, i, j, done), s),
    decreases j - i,
{
    if i + 1 < j {
        lemma_token_stands(done, s, i, i + 2);
        lemma_bigrams_stand(s, i + 1, j, done.push(run_token(s, i, i + 2, done.len() as int)));
    }
}

proof fn lemma_cjk_run_bounds(s: Seq<char>, i: int)
    requires
        0 <= i <= s.len(),
    ensures
        i <= cjk_run_end(s, i) <= s.len(),
        i <= other_run_end(s, i) <= s.len(),
    decreases s.len() - i,
{
    if i < s.len() {
        lemma_cjk_run_bounds(s, i + 1);
    }
}

proof fn lemma_cjk_stands(s: Seq<char>, i: int, done: Seq<AnalyzeTokenV>)
    requires
        0 <= i,
        tokens_stand_in(done, s),
    ensures
        tokens_stand_in(cjk_from(s, i, done), s),
    decreases left(s.len(), i),
{
    if i < s.len() {
        lemma_cjk_run_bounds(s, i);
        if is_space(s[i]) {
            lemma_cjk_stands(s, i + 1, done);
        } else if is_cjk(s[i]) {
            let j = past(i, cjk_run_end(s, i));
            if j == i + 1 {
                lemma_token_stands(done, s, i, j);
                lemma_cjk_stands(s, j, done.push(run_token(s, i, j, done.len() as int)));
            } else {
                lemma_bigrams_stand(s, i, j, done);
                lemma_cjk_stands(s, j, bigrams(s, i, j, done));
            }
        } else {
            let j = past(i, other_run_end(s, i));
            lemma_token_stands(done, s, i, j);
            lemma_cjk_stands(s, j, done.push(run_token(s, i, j, done.len() as int)));
        }
    }
}

/// Every CJK token is the part of the text between its byte offsets.
pub proof fn law_cjk_tokens_stand_in_text(s: Seq<char>)
    ensures
        tokens_stand_in(cjk_from(s, 0, seq![]), s),
{
    lemma_cjk_stands(s, 0, seq![]);
}

/// Whether the positions of tokens never go back, and are up to a bound.
pub open spec fn positions_rise(tokens: Seq<AnalyzeTokenV>, most: int) -> bool {
    &&& forall|j: int, k: int|
        0 <= j <= k < tokens.len() ==> (#[trigger] tokens[j]).position <= (
        #[trigger] tokens[k]).position
    &&& forall|k: int| 0 <= k < tokens.len() ==> (#[trigger] tokens[k]).position <= most
}

proof fn lemma_split_count(
    s: Seq<char>,
    splits: spec_fn(char) -> bool,
    i: int,
    done: Seq<AnalyzeTokenV>,
)
    requires
        0 <= i <= s.len(),
    ensures
        split_from(s, splits, i, done).len() <= done.len() + s.len() - i,
    decreases left(s.len(), i),
{
    if i < s.len() {
        if splits(s[i]) {
            lemma_split_count(s, splits, i + 1, done);
        } else {
            lemma_run_end(s, splits, i);
            let j = past(i, run_end(s, splits, i));
            lemma_split_count(s, splits, j, done.push(run_token(s, i, j, done.len() as int)));
        }
    }
}

proof fn lemma_bigrams_count(s: Seq<char>, i: int, j: int, done: Seq<AnalyzeTokenV>)
    ensures
        bigrams(s, i, j, done).len() <= done.len() + if i < j {
            j - i
        } else {
            0
        },
    decreases j - i,
{
    if i + 1 < j {
        lemma_bigrams_count(s, i + 1, j, done.push(run_token(s, i, i + 2, done.len() as int)));
    }
}

proof fn lemma_cjk_runs(s: Seq<char>, i: int)
    requires
        0 <= i <= s.len(),
    ensures
        i <= cjk_run_end(s, i) <= s.len(),
        i <= other_run_end(s, i) <= s.len(),
    decreases s.len() - i,
{
    if i < s.len() {
        lemma_cjk_runs(s, i + 1);
    }
}

proof fn lemma_cjk_count(s: Seq<char>, i: int, done: Seq<AnalyzeTokenV>)
    requires
        0 <= i <= s.len(),
    ensures
        cjk_from(s, i, done).len() <= done.len() + s.len() - i,
    decreases left(s.len(), i),
{
    if i < s.len() {
        lemma_cjk_runs(s, i);
        if is_space(s[i]) {
            lemma_cjk_count(s, i + 1, done);
        } else if is_cjk(s[i]) {
            let j = past(i, cjk_run_end(s, i));
            if j == i + 1 {
                lemma_cjk_count(s, j, done.push(run_token(s, i, j, done.len() as int)));
            } else {
                lemma_bigrams_count(s, i, j, done);
                lemma_cjk_count(s, j, bigrams(s, i, j, done));
            }
        } else {
            let j = past(i, other_run_end(s, i));
            lemma_cjk_count(s, j, done.push(run_token(s, i, j, done.len() as int)));
        }
    }
}

proof fn lemma_counted_in_order(tokens: Seq<AnalyzeTokenV>, most: int)
    requires
        counted(tokens),
        tokens.len() <= most <= u32::MAX,
    ensures
        positions_rise(tokens, most),
{
}

proof fn lemma_grams_in_order(
    s: Seq<char>,
    i: int,
    len: int,
    max: int,
    done: Seq<AnalyzeTokenV>,
)
    requires
        positions_rise(done, 0),
    ensures
        positions_rise(grams_at(s, i, len, max, done), 0),
    decreases s.len() + 1 - (i + len),
{
    if len <= max && i + len <= s.len() {
        lemma_grams_in_order(s, i, len + 1, max, done.push(run_token(s, i, i + len, 0)));
    }
}

proof fn lemma_ngrams_in_order(
    s: Seq<char>,
    i: int,
    min: int,
    max: int,
    prefix_only: bool,
    done: Seq<AnalyzeTokenV>,
)
    requires
        positions_rise(done, 0),
    ensures
        positions_rise(grams_from(s, i, min, max, prefix_only, done), 0),
    decreases s.len() + 1 - i,
{
    if i <= s.len() && !(i > 0 && prefix_only) {
        lemma_grams_in_order(s, i, min, max, done);
        lemma_ngrams_in_order(s, i + 1, min, max, prefix_only, grams_at(s, i, min, max, done));
    }
}

proof fn lemma_lowered_in_order(tokens: Seq<AnalyzeTokenV>, n: int, limit: usize, most: int)
    requires
        positions_rise(tokens, most),
        0 <= n <= tokens.len(),
    ensures
        positions_rise(lowered_list(tokens, n, limit), most),
        forall|k: int|
            0 <= k < lowered_list(tokens, n, limit).len() ==> n > 0 && (#[trigger] lowered_list(
                tokens,
                n,
                limit,
            )[k]).position <= tokens[n - 1].position,
    decreases n,
{
    if n > 0 {
        lemma_lowered_in_order(tokens, n - 1, limit, most);
    }
}

proof fn lemma_stemmed_in_order(
    tokens: Seq<AnalyzeTokenV>,
    n: int,
    language: Seq<char>,
    most: int,
)
    requires
        positions_rise(tokens, most),
        0 <= n <= tokens.len(),
    ensures
        positions_rise(stemmed_list(tokens, n, language), most),
        forall|k: int|
            0 <= k < stemmed_list(tokens, n, language).len() ==> n > 0 && (#[trigger] stemmed_list(
                tokens,
                n,
                language,
            )[k]).position <= tokens[n - 1].position,
    decreases n,
{
    if n > 0 {
        lemma_stemmed_in_order(tokens, n - 1, language, most);
    }
}

/// The tokens of an analyzer stand in order: their positions never go back, and are
/// not more than the characters of the text.
pub proof fn law_tokens_stand_in_order(text: Seq<char>, tokenizer: Seq<char>)
    requires
        text.len() <= u32::MAX,
    ensures
        positions_rise(pipeline_tokens(text, tokenizer), text.len() as int),
{
    let most = text.len() as int;
    let words = split_text(text, at_punctuation());
    let parts = split_text(text, at_ascii_space());
    lemma_split_from(text, at_punctuation(), 0, seq![]);
    lemma_split_from(text, at_ascii_space(), 0, seq![]);
    lemma_split_count(text, at_punctuation(), 0, seq![]);
    lemma_split_count(text, at_ascii_space(), 0, seq![]);
    lemma_counted_in_order(words, most);
    lemma_counted_in_order(parts, most);
    lemma_cjk_counted(text, 0, seq![]);
    lemma_cjk_count(text, 0, seq![]);
    let runs = cjk_from(text, 0, seq![]);
    lemma_counted_in_order(runs, most);
    let grams = ngram_tokens(text, MIN_NGRAM, MAX_NGRAM, false);
    let edges = ngram_tokens(text, MIN_NGRAM, MAX_NGRAM, true);
    lemma_ngrams_in_order(text, 0, MIN_NGRAM as int, MAX_NGRAM as int, false, seq![]);
    lemma_ngrams_in_order(text, 0, MIN_NGRAM as int, MAX_NGRAM as int, true, seq![]);
    let limit = TOKEN_LENGTH_LIMIT;
    lemma_lowered_in_order(words, words.len() as int, limit, most);
    lemma_lowered_in_order(runs, runs.len() as int, limit, most);
    lemma_lowered_in_order(grams, grams.len() as int, limit, most);
    lemma_lowered_in_order(edges, edges.len() as int, limit, most);
    let lower = lowered_tokens(words, limit);
    lemma_stemmed_in_order(lower, lower.len() as int, language_of(tokenizer), most);
}

} // verus!
