//! The semantic options of a search request.
use crate::error::{ApiError, ApiErrorV, invalid_query_v};
use crate::json::{
    Json, JsonMap, JsonV, Number, group_json, member, nonempty_str, nonempty_str_of, opt_value,
    values,
};
use crate::text::{
    cat3, cat4, cat5, debug_text, decimal, decimal_text, lemma_texts_push, quoted, same_text,
    texts,
};
use vstd::prelude::*;

verus! {

/// Default answers count when answers are requested without an explicit count.
pub const DEFAULT_ANSWERS_COUNT: usize = 3;

/// Default captions count when captions are requested without an explicit
/// count.
pub const DEFAULT_CAPTIONS_COUNT: usize = 1;

/// Default cap on accepted `answers.count` values.
pub const DEFAULT_MAX_ANSWERS: usize = 5;

/// Default cap on accepted `captions.count` values.
pub const DEFAULT_MAX_CAPTIONS: usize = 3;

/// Caps on accepted semantic `count` values.
#[derive(Debug, Clone, Copy, PartialEq, Eq, Structural)]
pub struct SemanticLimits {
    /// Maximum accepted `answers.count` (nested validation, flat clamping).
    pub max_answers: usize,
    /// Maximum accepted `captions.count` (nested validation).
    pub max_captions: usize,
}

impl Default for SemanticLimits {
    fn default() -> (r: SemanticLimits)
        ensures
            r.max_answers == DEFAULT_MAX_ANSWERS,
            r.max_captions == DEFAULT_MAX_CAPTIONS,
    {
        SemanticLimits { max_answers: DEFAULT_MAX_ANSWERS, max_captions: DEFAULT_MAX_CAPTIONS }
    }
}

/// The `answers` sub-block: how many extractive answers to return.
#[derive(Debug, Clone, Copy, PartialEq, Eq, Structural)]
pub struct SemanticQueryAnswers {
    pub count: usize,
}

/// The `captions` sub-block: how many captions to return, with optional
/// nested per-caption answers.
#[derive(Debug, Clone, Copy, PartialEq, Eq, Structural)]
pub struct SemanticQueryCaptions {
    pub count: usize,
    pub answers: Option<SemanticQueryAnswers>,
}

/// The `semanticErrorHandling` mode.
#[derive(Debug, Clone, Copy, PartialEq, Eq, Structural)]
pub enum SemanticErrorHandling {
    /// Return an error when semantic processing fails (default).
    ThrowError,
    /// Return partial results when semantic processing fails.
    ReturnPartialResults,
}

impl Default for SemanticErrorHandling {
    fn default() -> (r: SemanticErrorHandling)
        ensures
            r == SemanticErrorHandling::ThrowError,
    {
        SemanticErrorHandling::ThrowError
    }
}

/// The semantic search options of a search request (from the nested `semantic`
/// object or the flat SDK parameters).
#[derive(Debug, PartialEq)]
pub struct SemanticQuery {
    pub configuration: String,
    /// Conversational context (`queryContext.questions`); biases answer
    /// selection.
    pub questions: Vec<String>,
    pub answers: Option<SemanticQueryAnswers>,
    pub captions: Option<SemanticQueryCaptions>,
    pub error_handling: SemanticErrorHandling,
}

/// The mathematical value of a [`SemanticQuery`].
pub struct SemanticQueryV {
    pub configuration: Seq<char>,
    pub questions: Seq<Seq<char>>,
    pub answers: Option<SemanticQueryAnswers>,
    pub captions: Option<SemanticQueryCaptions>,
    pub error_handling: SemanticErrorHandling,
}

impl View for SemanticQuery {
    type V = SemanticQueryV;

    open spec fn view(&self) -> SemanticQueryV {
        SemanticQueryV {
            configuration: self.configuration@,
            questions: texts(self.questions@),
            answers: self.answers,
            captions: self.captions,
            error_handling: self.error_handling,
        }
    }
}

pub open spec fn opt_semantic_query(o: Option<SemanticQuery>) -> Option<SemanticQueryV> {
    match o {
        Some(q) => Some(q@),
        None => None,
    }
}

pub open spec fn semantic_query_result(r: Result<Option<SemanticQuery>, ApiError>) -> Result<
    Option<SemanticQueryV>,
    ApiErrorV,
> {
    match r {
        Ok(o) => Ok(opt_semantic_query(o)),
        Err(e) => Err(e@),
    }
}

// ---------------------------------------------------------------------------
// Blocks
// ---------------------------------------------------------------------------

/// A `count` value: the default where it is absent, otherwise an integer from 1
/// to `max`.
pub open spec fn count_of(
    raw: Option<JsonV>,
    label: Seq<char>,
    default: usize,
    max: usize,
    message: Seq<char>,
) -> Result<usize, ApiErrorV> {
    match raw {
        None => Ok(default),
        Some(JsonV::Null) => Ok(default),
        Some(JsonV::Number(n)) => match n {
            Number::PosInt(v) => if 1 <= v <= max {
                Ok(v as usize)
            } else {
                Err(invalid_query_v(message + " must be 1-"@ + decimal(max as nat) + "."@))
            },
            _ => Err(invalid_query_v(message + " must be 1-"@ + decimal(max as nat) + "."@)),
        },
        Some(_) => Err(
            invalid_query_v(
                "The "@ + debug_text(label) + " property must be a positive integer, 1-"@ + decimal(
                    max as nat,
                ) + "."@,
            ),
        ),
    }
}

/// The type of an answers or captions block: extractive where it names none.
pub open spec fn block_type(m: Seq<(Seq<char>, JsonV)>) -> Seq<char> {
    match member(m, "type"@) {
        Some(JsonV::String(s)) => s,
        _ => "extractive"@,
    }
}

pub open spec fn answers_block_of(raw: JsonV, label: Seq<char>, limits: SemanticLimits) -> Result<
    SemanticQueryAnswers,
    ApiErrorV,
> {
    match raw {
        JsonV::Object(m) => if block_type(m) != "extractive"@ {
            Err(
                invalid_query_v(
                    "Unsupported semantic answer type "@ + debug_text(block_type(m))
                        + "; only 'extractive' is supported."@,
                ),
            )
        } else {
            match count_of(
                member(m, "count"@),
                label,
                DEFAULT_ANSWERS_COUNT,
                limits.max_answers,
                "Semantic answers count"@,
            ) {
                Ok(count) => Ok(SemanticQueryAnswers { count }),
                Err(e) => Err(e),
            }
        },
        _ => Err(
            invalid_query_v("The "@ + debug_text(label) + " property must be a JSON object."@),
        ),
    }
}

pub open spec fn opt_answers_of(
    raw: Option<JsonV>,
    label: Seq<char>,
    limits: SemanticLimits,
) -> Result<Option<SemanticQueryAnswers>, ApiErrorV> {
    match raw {
        None => Ok(None),
        Some(JsonV::Null) => Ok(None),
        Some(raw) => match answers_block_of(raw, label, limits) {
            Ok(a) => Ok(Some(a)),
            Err(e) => Err(e),
        },
    }
}

pub open spec fn captions_block_of(raw: JsonV, limits: SemanticLimits) -> Result<
    SemanticQueryCaptions,
    ApiErrorV,
> {
    match raw {
        JsonV::Object(m) => if block_type(m) != "extractive"@ {
            Err(
                invalid_query_v(
                    "Unsupported semantic caption type "@ + debug_text(block_type(m))
                        + "; only 'extractive' is supported."@,
                ),
            )
        } else {
            match count_of(
                member(m, "count"@),
                "semantic.captions.count"@,
                DEFAULT_CAPTIONS_COUNT,
                limits.max_captions,
                "Semantic captions count"@,
            ) {
                Err(e) => Err(e),
                Ok(count) => match opt_answers_of(
                    member(m, "answers"@),
                    "semantic.captions.answers"@,
                    limits,
                ) {
                    Err(e) => Err(e),
                    Ok(answers) => Ok(SemanticQueryCaptions { count, answers }),
                },
            }
        },
        _ => Err(
            invalid_query_v("The 'semantic.captions' property must be a JSON object."@),
        ),
    }
}

pub open spec fn opt_captions_of(raw: Option<JsonV>, limits: SemanticLimits) -> Result<
    Option<SemanticQueryCaptions>,
    ApiErrorV,
> {
    match raw {
        None => Ok(None),
        Some(JsonV::Null) => Ok(None),
        Some(raw) => match captions_block_of(raw, limits) {
            Ok(c) => Ok(Some(c)),
            Err(e) => Err(e),
        },
    }
}

pub open spec fn error_handling_of(raw: Option<JsonV>) -> Result<
    SemanticErrorHandling,
    ApiErrorV,
> {
    match raw {
        None => Ok(SemanticErrorHandling::ThrowError),
        Some(JsonV::Null) => Ok(SemanticErrorHandling::ThrowError),
        Some(JsonV::String(mode)) => if mode == "throwError"@ || mode == "fail"@ {
            Ok(SemanticErrorHandling::ThrowError)
        } else if mode == "returnPartialResults"@ || mode == "partial"@ {
            Ok(SemanticErrorHandling::ReturnPartialResults)
        } else {
            Err(invalid_query_v("Invalid semanticErrorHandling "@ + debug_text(mode) + "."@))
        },
        Some(_) => Err(
            invalid_query_v("The 'semanticErrorHandling' property must be a string."@),
        ),
    }
}

/// The strings of a list from `i` on, behind those in `done`; none where one is
/// no string.
pub open spec fn only_strings(items: Seq<JsonV>, i: int, done: Seq<Seq<char>>) -> Option<
    Seq<Seq<char>>,
>
    decreases items.len() - i,
{
    if i >= items.len() {
        Some(done)
    } else {
        match items[i] {
            JsonV::String(s) => only_strings(items, i + 1, done.push(s)),
            _ => None,
        }
    }
}

pub open spec fn questions_problem() -> ApiErrorV {
    invalid_query_v(
        "The 'semantic.queryContext.questions' property must be an array of strings."@,
    )
}

/// The questions of the `queryContext` member.
pub open spec fn questions_of(raw: Option<JsonV>) -> Result<Seq<Seq<char>>, ApiErrorV> {
    match raw {
        None => Ok(seq![]),
        Some(JsonV::Null) => Ok(seq![]),
        Some(JsonV::Object(m)) => match member(m, "questions"@) {
            None => Ok(seq![]),
            Some(JsonV::Null) => Ok(seq![]),
            Some(JsonV::Array(items)) => match only_strings(items, 0, seq![]) {
                Some(list) => Ok(list),
                None => Err(questions_problem()),
            },
            Some(_) => Err(questions_problem()),
        },
        Some(_) => Err(
            invalid_query_v("The 'semantic.queryContext' property must be a JSON object."@),
        ),
    }
}

/// The semantic options that the nested `semantic` object writes.
pub open spec fn semantic_query_of(raw: JsonV, limits: SemanticLimits) -> Result<
    Option<SemanticQueryV>,
    ApiErrorV,
> {
    match raw {
        JsonV::Null => Ok(None),
        JsonV::Object(m) => match nonempty_str_of(member(m, "semanticConfiguration"@)) {
            None => Err(
                invalid_query_v(
                    "The 'semantic' property requires a 'semanticConfiguration' string."@,
                ),
            ),
            Some(configuration) => match questions_of(member(m, "queryContext"@)) {
                Err(e) => Err(e),
                Ok(questions) => match opt_answers_of(
                    member(m, "answers"@),
                    "semantic.answers"@,
                    limits,
                ) {
                    Err(e) => Err(e),
                    Ok(answers) => match opt_captions_of(member(m, "captions"@), limits) {
                        Err(e) => Err(e),
                        Ok(captions) => match error_handling_of(
                            member(m, "semanticErrorHandling"@),
                        ) {
                            Err(e) => Err(e),
                            Ok(error_handling) => Ok(
                                Some(
                                    SemanticQueryV {
                                        configuration,
                                        questions,
                                        answers,
                                        captions,
                                        error_handling,
                                    },
                                ),
                            ),
                        },
                    },
                },
            },
        },
        _ => Err(invalid_query_v("The 'semantic' property must be a JSON object."@)),
    }
}

impl SemanticQuery {
    /// Parses the nested `semantic` object from a search request body.
    /// Returns `None` when the property is null.
    pub fn from_json(value: &Json, limits: &SemanticLimits) -> (r: Result<
        Option<SemanticQuery>,
        ApiError,
    >)
        ensures
            semantic_query_result(r) == semantic_query_of(value@, *limits),
    {
        broadcast use group_json;

        let obj = match value {
            Json::Null => {
                return Ok(None);
            },
            Json::Object(obj) => obj,
            _ => {
                return Err(
                    ApiError::invalid_query("The 'semantic' property must be a JSON object."),
                );
            },
        };
        let configuration = match nonempty_str(obj.get("semanticConfiguration")) {
            Some(name) => name.to_owned(),
            None => {
                return Err(
                    ApiError::invalid_query(
                        "The 'semantic' property requires a 'semanticConfiguration' string.",
                    ),
                );
            },
        };
        let questions = SemanticQuery::parse_questions(obj.get("queryContext"))?;
        let answers = match obj.get("answers") {
            None => None,
            Some(Json::Null) => None,
            Some(raw) => Some(SemanticQuery::parse_answers_block(raw, "semantic.answers", limits)?),
        };
        let captions = match obj.get("captions") {
            None => None,
            Some(Json::Null) => None,
            Some(raw) => Some(SemanticQuery::parse_captions_block(raw, limits)?),
        };
        let error_handling = SemanticQuery::parse_error_handling(
            obj.get("semanticErrorHandling"),
        )?;
        Ok(
            Some(SemanticQuery { configuration, questions, answers, captions, error_handling }),
        )
    }

    fn parse_questions(raw: Option<&Json>) -> (r: Result<Vec<String>, ApiError>)
        ensures
            match r {
                Ok(list) => questions_of(opt_value(raw)) == Ok::<_, ApiErrorV>(texts(list@)),
                Err(e) => questions_of(opt_value(raw)) == Err::<Seq<Seq<char>>, _>(e@),
            },
    {
        broadcast use {group_json, lemma_texts_push};

        let mut out: Vec<String> = Vec::new();
        assert(texts(out@) =~= seq![]);
        let context = match raw {
            None => {
                return Ok(out);
            },
            Some(Json::Null) => {
                return Ok(out);
            },
            Some(Json::Object(context)) => context,
            Some(_) => {
                return Err(
                    ApiError::invalid_query(
                        "The 'semantic.queryContext' property must be a JSON object.",
                    ),
                );
            },
        };
        let items = match context.get("questions") {
            None => {
                return Ok(out);
            },
            Some(Json::Null) => {
                return Ok(out);
            },
            Some(Json::Array(items)) => items,
            Some(_) => {
                return Err(
                    ApiError::invalid_query(
                        "The 'semantic.queryContext.questions' property must be an array of strings.",
                    ),
                );
            },
        };
        let ghost all = values(items@);
        let mut i: usize = 0;
        while i < items.len()
            invariant
                all == values(items@),
                i <= items@.len(),
                questions_of(opt_value(raw)) == (match only_strings(
                    all,
                    i as int,
                    texts(out@),
                ) {
                    Some(list) => Ok(list),
                    None => Err(questions_problem()),
                }),
            decreases items@.len() - i,
        {
            assert(all[i as int] == items@[i as int]@);
            match items[i].as_str() {
                Some(s) => {
                    let ghost before = texts(out@);
                    out.push(s.to_owned());
                    assert(texts(out@) == before.push(s@));
                },
                None => {
                    return Err(
                        ApiError::invalid_query(
                            "The 'semantic.queryContext.questions' property must be an array of strings.",
                        ),
                    );
                },
            }
            i += 1;
        }
        Ok(out)
    }

    /// Parses the `captions` sub-block (`{count, type, answers}`).
    fn parse_captions_block(raw: &Json, limits: &SemanticLimits) -> (r: Result<
        SemanticQueryCaptions,
        ApiError,
    >)
        ensures
            match r {
                Ok(c) => captions_block_of(raw@, *limits) == Ok::<_, ApiErrorV>(c),
                Err(e) => captions_block_of(raw@, *limits) == Err::<SemanticQueryCaptions, _>(e@),
            },
    {
        broadcast use group_json;

        let block = match raw.as_object() {
            Some(block) => block,
            None => {
                return Err(
                    ApiError::invalid_query(
                        "The 'semantic.captions' property must be a JSON object.",
                    ),
                );
            },
        };
        let kind = SemanticQuery::read_block_type(block);
        if !same_text(kind.as_str(), "extractive") {
            return Err(
                ApiError::invalid_query(
                    cat3(
                        "Unsupported semantic caption type ",
                        quoted(kind.as_str()).as_str(),
                        "; only 'extractive' is supported.",
                    ).as_str(),
                ),
            );
        }
        let count = SemanticQuery::parse_count(
            block.get("count"),
            "semantic.captions.count",
            DEFAULT_CAPTIONS_COUNT,
            limits.max_captions,
            "Semantic captions count",
        )?;
        let answers = match block.get("answers") {
            None => None,
            Some(Json::Null) => None,
            Some(raw) => Some(
                SemanticQuery::parse_answers_block(raw, "semantic.captions.answers", limits)?,
            ),
        };
        Ok(SemanticQueryCaptions { count, answers })
    }

    fn read_block_type(block: &JsonMap) -> (r: String)
        ensures
            r@ == block_type(block@),
    {
        match block.get("type") {
            Some(Json::String(s)) => s.clone(),
            _ => "extractive".to_owned(),
        }
    }

    /// Parses an `answers`-shaped block (`{count, type}`), used for top-level
    /// `answers` and nested `captions.answers`.
    fn parse_answers_block(raw: &Json, label: &str, limits: &SemanticLimits) -> (r: Result<
        SemanticQueryAnswers,
        ApiError,
    >)
        ensures
            match r {
                Ok(a) => answers_block_of(raw@, label@, *limits) == Ok::<_, ApiErrorV>(a),
                Err(e) => answers_block_of(raw@, label@, *limits) == Err::<
                    SemanticQueryAnswers,
                    _,
                >(e@),
            },
    {
        let block = match raw.as_object() {
            Some(block) => block,
            None => {
                return Err(
                    ApiError::invalid_query(
                        cat3("The ", quoted(label).as_str(), " property must be a JSON object.").as_str(),
                    ),
                );
            },
        };
        let kind = SemanticQuery::read_block_type(block);
        if !same_text(kind.as_str(), "extractive") {
            return Err(
                ApiError::invalid_query(
                    cat3(
                        "Unsupported semantic answer type ",
                        quoted(kind.as_str()).as_str(),
                        "; only 'extractive' is supported.",
                    ).as_str(),
                ),
            );
        }
        let count = SemanticQuery::parse_count(
            block.get("count"),
            label,
            DEFAULT_ANSWERS_COUNT,
            limits.max_answers,
            "Semantic answers count",
        )?;
        Ok(SemanticQueryAnswers { count })
    }

    /// Parses a `count` value: defaults when absent, rejects non-integers and
    /// values outside `1..=max`.
    fn parse_count(
        raw: Option<&Json>,
        label: &str,
        default: usize,
        max: usize,
        message: &str,
    ) -> (r: Result<usize, ApiError>)
        ensures
            match r {
                Ok(n) => count_of(opt_value(raw), label@, default, max, message@) == Ok::<
                    _,
                    ApiErrorV,
                >(n),
                Err(e) => count_of(opt_value(raw), label@, default, max, message@) == Err::<
                    usize,
                    _,
                >(e@),
            },
    {
        match raw {
            None => Ok(default),
            Some(Json::Null) => Ok(default),
            Some(Json::Number(n)) => {
                if let Number::PosInt(v) = n {
                    if 1 <= *v && *v <= max as u64 {
                        return Ok(*v as usize);
                    }
                }
                Err(
                    ApiError::invalid_query(
                        cat4(message, " must be 1-", decimal_text(max as u64).as_str(), ".").as_str(),
                    ),
                )
            },
            Some(_) => Err(
                ApiError::invalid_query(
                    cat5(
                        "The ",
                        quoted(label).as_str(),
                        " property must be a positive integer, 1-",
                        decimal_text(max as u64).as_str(),
                        ".",
                    ).as_str(),
                ),
            ),
        }
    }

    /// Parses `semanticErrorHandling` / `semanticErrorMode`: `throwError` /
    /// `fail` (default) select [`SemanticErrorHandling::ThrowError`],
    /// `returnPartialResults` / `partial` select
    /// [`SemanticErrorHandling::ReturnPartialResults`].
    pub fn parse_error_handling(raw: Option<&Json>) -> (r: Result<SemanticErrorHandling, ApiError>)
        ensures
            match r {
                Ok(h) => error_handling_of(opt_value(raw)) == Ok::<_, ApiErrorV>(h),
                Err(e) => error_handling_of(opt_value(raw)) == Err::<SemanticErrorHandling, _>(e@),
            },
    {
        match raw {
            None => Ok(SemanticErrorHandling::ThrowError),
            Some(Json::Null) => Ok(SemanticErrorHandling::ThrowError),
            Some(Json::String(mode)) => {
                let m = mode.as_str();
                if same_text(m, "throwError") || same_text(m, "fail") {
                    Ok(SemanticErrorHandling::ThrowError)
                } else if same_text(m, "returnPartialResults") || same_text(m, "partial") {
                    Ok(SemanticErrorHandling::ReturnPartialResults)
                } else {
                    Err(
                        ApiError::invalid_query(
                            cat3("Invalid semanticErrorHandling ", quoted(m).as_str(), ".").as_str(),
                        ),
                    )
                }
            },
            Some(_) => Err(
                ApiError::invalid_query("The 'semanticErrorHandling' property must be a string."),
            ),
        }
    }
}

/// The counts of accepted semantic options lie within the limits, where the
/// defaults do.
pub proof fn law_accepted_counts_within_limits(raw: JsonV, limits: SemanticLimits)
    requires
        DEFAULT_ANSWERS_COUNT <= limits.max_answers,
        DEFAULT_CAPTIONS_COUNT <= limits.max_captions,
        semantic_query_of(raw, limits) is Ok,
        semantic_query_of(raw, limits)->Ok_0 is Some,
    ensures
        ({
            let q = semantic_query_of(raw, limits)->Ok_0->Some_0;
            &&& q.answers is Some ==> 1 <= q.answers->Some_0.count <= limits.max_answers
            &&& q.captions is Some ==> 1 <= q.captions->Some_0.count <= limits.max_captions
            &&& q.configuration.len() > 0
        }),
{
}

} // verus!
