//! The semantic options of a search request, in their two wire formats.
use crate::error::{ApiError, ApiErrorV, invalid_query_v};
use crate::json::{Json, JsonMap, JsonV, Number, member, member_or, nonempty_str, nonempty_str_of};
use crate::semantic::query::{
    DEFAULT_ANSWERS_COUNT, DEFAULT_CAPTIONS_COUNT, SemanticLimits, SemanticQuery,
    SemanticQueryAnswers, SemanticQueryCaptions, SemanticQueryV, error_handling_of,
    semantic_query_of, semantic_query_result,
};
use crate::text::{
    after_prefix, parse_unsigned, pieces, same_text, split_on, strip_prefix, texts, trim, trimmed,
    unsigned_value,
};
use vstd::prelude::*;

verus! {

/// A number brought into the range from 1 to `max`.
pub open spec fn clamped(n: nat, max: usize) -> usize {
    if n < 1 {
        1
    } else if n > max {
        max
    } else {
        n as usize
    }
}

/// The count that the options from `i` on set: the last `count-N` wins.
pub open spec fn count_options(options: Seq<Seq<char>>, i: int, count: usize, max: usize) -> usize
    decreases options.len() - i,
{
    if i >= options.len() {
        count
    } else {
        match after_prefix(trim(options[i]), "count-"@) {
            Some(value) => match unsigned_value(trim(value), usize::MAX as nat) {
                Some(n) => count_options(options, i + 1, clamped(n, max), max),
                None => count_options(options, i + 1, count, max),
            },
            None => count_options(options, i + 1, count, max),
        }
    }
}

/// The count that the comma-separated options of the parts from `i` on set.
pub open spec fn count_parts(parts: Seq<Seq<char>>, i: int, count: usize, max: usize) -> usize
    decreases parts.len() - i,
{
    if i >= parts.len() {
        count
    } else {
        count_parts(parts, i + 1, count_options(pieces(parts[i], ','), 0, count, max), max)
    }
}

/// The answers that the flat options ask for: by the compound string
/// (`extractive|count-N`), or else by `queryAnswer` and `queryAnswerCount`.
pub open spec fn flat_answers(m: Seq<(Seq<char>, JsonV)>, max: usize) -> Option<
    SemanticQueryAnswers,
> {
    match member(m, "answers"@) {
        Some(JsonV::String(raw)) => {
            let parts = pieces(raw, '|');
            if trim(parts[0]) != "extractive"@ {
                None
            } else {
                Some(
                    SemanticQueryAnswers {
                        count: count_parts(parts, 1, DEFAULT_ANSWERS_COUNT, max),
                    },
                )
            }
        },
        _ => if member(m, "queryAnswer"@) == Some(JsonV::String("extractive"@)) {
            Some(
                SemanticQueryAnswers {
                    count: match member(m, "queryAnswerCount"@) {
                        Some(JsonV::Number(Number::PosInt(n))) => if n <= usize::MAX {
                            clamped(n as nat, max)
                        } else {
                            DEFAULT_ANSWERS_COUNT
                        },
                        _ => DEFAULT_ANSWERS_COUNT,
                    },
                },
            )
        } else {
            None
        },
    }
}

/// The captions that the flat options ask for.
pub open spec fn flat_captions(m: Seq<(Seq<char>, JsonV)>) -> Option<SemanticQueryCaptions> {
    let asked = match member(m, "captions"@) {
        Some(JsonV::String(raw)) => trim(pieces(raw, '|')[0]) == "extractive"@,
        _ => member(m, "queryCaption"@) == Some(JsonV::String("extractive"@)),
    };
    if asked {
        Some(SemanticQueryCaptions { count: DEFAULT_CAPTIONS_COUNT, answers: None })
    } else {
        None
    }
}

/// The semantic options of a request, where it has some.
pub open spec fn semantic_options_of(m: Seq<(Seq<char>, JsonV)>, limits: SemanticLimits) -> Result<
    Option<SemanticQueryV>,
    ApiErrorV,
> {
    let nested = member(m, "semantic"@);
    if nested is Some && nested->Some_0 != JsonV::Null {
        semantic_query_of(nested->Some_0, limits)
    } else {
        match member_or(m, "semanticConfiguration"@, "semanticConfigurationName"@) {
            None => Ok(None),
            Some(JsonV::Null) => Ok(None),
            Some(value) => match nonempty_str_of(Some(value)) {
                None => Err(
                    invalid_query_v(
                        "The 'semanticConfiguration' property requires a non-empty string."@,
                    ),
                ),
                Some(configuration) => match error_handling_of(
                    member_or(m, "semanticErrorHandling"@, "semanticErrorMode"@),
                ) {
                    Err(e) => Err(e),
                    Ok(error_handling) => Ok(
                        Some(
                            SemanticQueryV {
                                configuration,
                                questions: seq![],
                                answers: flat_answers(m, limits.max_answers),
                                captions: flat_captions(m),
                                error_handling,
                            },
                        ),
                    ),
                },
            },
        }
    }
}

fn read_count_options(part: &str, start: usize, max: usize) -> (r: usize)
    requires
        max >= 1,
    ensures
        r == count_options(pieces(part@, ','), 0, start, max),
{
    let options = split_on(part, ',');
    let ghost all = texts(options@);
    let mut count: usize = start;
    let mut i: usize = 0;
    while i < options.len()
        invariant
            max >= 1,
            all == texts(options@),
            i <= options@.len(),
            count_options(all, 0, start, max) == count_options(all, i as int, count, max),
        decreases options@.len() - i,
    {
        assert(all[i as int] == options@[i as int]@);
        let option = trimmed(options[i].as_str());
        if let Some(value) = strip_prefix(option.as_str(), "count-") {
            if let Some(n) = parse_unsigned(trimmed(value.as_str()).as_str(), usize::MAX as u64) {
                count = clamp_count(n as usize, max);
            }
        }
        i += 1;
    }
    count
}

fn clamp_count(n: usize, max: usize) -> (r: usize)
    requires
        max >= 1,
    ensures
        r == clamped(n as nat, max),
        1 <= r <= max,
{
    if n < 1 {
        1
    } else if n > max {
        max
    } else {
        n
    }
}

/// Parses the flat `answers` option: the SDK compound string
/// (`"extractive"`, `"extractive|count-N"`, `"extractive|count-N,threshold-T"`,
/// `"none"`), falling back to the `queryAnswer` / `queryAnswerCount`
/// properties. Unknown types are treated as absent.
fn parse_flat_answers(obj: &JsonMap, limits: &SemanticLimits) -> (r: Option<SemanticQueryAnswers>)
    requires
        limits.max_answers >= 1,
    ensures
        r == flat_answers(obj@, limits.max_answers),
{
    if let Some(Json::String(raw)) = obj.get("answers") {
        let parts = split_on(raw.as_str(), '|');
        let ghost all = texts(parts@);
        assert(all[0] == parts@[0]@);
        if !same_text(trimmed(parts[0].as_str()).as_str(), "extractive") {
            return None;
        }
        let mut count: usize = DEFAULT_ANSWERS_COUNT;
        let mut i: usize = 1;
        while i < parts.len()
            invariant
                limits.max_answers >= 1,
                all == texts(parts@),
                1 <= i <= parts@.len(),
                count_parts(all, 1, DEFAULT_ANSWERS_COUNT, limits.max_answers) == count_parts(
                    all,
                    i as int,
                    count,
                    limits.max_answers,
                ),
            decreases parts@.len() - i,
        {
            assert(all[i as int] == parts@[i as int]@);
            count = read_count_options(parts[i].as_str(), count, limits.max_answers);
            i += 1;
        }
        return Some(SemanticQueryAnswers { count });
    }
    let asked = match obj.get("queryAnswer") {
        Some(Json::String(s)) => same_text(s.as_str(), "extractive"),
        _ => false,
    };
    if !asked {
        return None;
    }
    let count = match obj.get("queryAnswerCount") {
        Some(Json::Number(Number::PosInt(n))) => {
            if *n <= usize::MAX as u64 {
                clamp_count(*n as usize, limits.max_answers)
            } else {
                DEFAULT_ANSWERS_COUNT
            }
        },
        _ => DEFAULT_ANSWERS_COUNT,
    };
    Some(SemanticQueryAnswers { count })
}

/// Parses the flat `captions` option: the SDK compound string
/// (`"extractive"`, `"extractive|highlight-true"`, `"none"`), falling back
/// to the `queryCaption` property. The SDK has no caption count, so the
/// default applies. Unknown types are treated as absent.
fn parse_flat_captions(obj: &JsonMap) -> (r: Option<SemanticQueryCaptions>)
    ensures
        r == flat_captions(obj@),
{
    let asked = match obj.get("captions") {
        Some(Json::String(raw)) => {
            let parts = split_on(raw.as_str(), '|');
            assert(texts(parts@)[0] == parts@[0]@);
            same_text(trimmed(parts[0].as_str()).as_str(), "extractive")
        },
        _ => match obj.get("queryCaption") {
            Some(Json::String(s)) => same_text(s.as_str(), "extractive"),
            _ => false,
        },
    };
    if asked {
        Some(SemanticQueryCaptions { count: DEFAULT_CAPTIONS_COUNT, answers: None })
    } else {
        None
    }
}

/// Parses the semantic search options from a search request body. Supports
/// two wire formats:
/// 1. The nested `semantic` object: `{"semantic": {"semanticConfiguration":
///    "...", "answers": {"count": N, "type": "extractive"}, ...}}`.
/// 2. The flat format: `{"queryType": "semantic", "semanticConfiguration":
///    "...", "answers": "extractive|count-N", "captions":
///    "extractive|highlight-true", "semanticErrorHandling": "fail", ...}`.
///
/// Returns `None` when neither format is present.
pub fn parse_semantic(obj: &JsonMap, limits: &SemanticLimits) -> (r: Result<
    Option<SemanticQuery>,
    ApiError,
>)
    requires
        limits.max_answers >= 1,
    ensures
        semantic_query_result(r) == semantic_options_of(obj@, *limits),
{
    if let Some(raw) = obj.get("semantic") {
        if !raw.is_null() {
            return SemanticQuery::from_json(raw, limits);
        }
    }
    let value = match obj.get_or("semanticConfiguration", "semanticConfigurationName") {
        None => {
            return Ok(None);
        },
        Some(Json::Null) => {
            return Ok(None);
        },
        Some(value) => value,
    };
    let configuration = match nonempty_str(Some(value)) {
        Some(name) => name.to_owned(),
        None => {
            return Err(
                ApiError::invalid_query(
                    "The 'semanticConfiguration' property requires a non-empty string.",
                ),
            );
        },
    };
    let answers = parse_flat_answers(obj, limits);
    let captions = parse_flat_captions(obj);
    let error_handling = SemanticQuery::parse_error_handling(
        obj.get_or("semanticErrorHandling", "semanticErrorMode"),
    )?;
    let questions: Vec<String> = Vec::new();
    assert(texts(questions@) =~= seq![]);
    Ok(Some(SemanticQuery { configuration, questions, answers, captions, error_handling }))
}

} // verus!
