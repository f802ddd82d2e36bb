//! Semantic configurations of an index.
use crate::json::{
    Json, JsonMap, JsonV, group_json, member, nonempty_str, nonempty_str_of, opt_value, values,
};
use crate::storage::definition::{
    FieldDefinition, FieldV, field_by_path, field_views, find_by_path, opt_field,
};
use crate::storage::field_type::FieldType;
use crate::text::{
    cat3, cat5, clone_texts, debug_text, holds_text, lemma_texts_push, opt_text, pieces, quoted,
    same_text, split_on, text_before, text_less, texts,
};
use vstd::prelude::*;

verus! {

/// The `semantic` block of an index definition.
#[derive(Debug, PartialEq)]
pub struct SemanticConfig {
    pub configurations: Vec<SemanticConfiguration>,
}

/// One named semantic configuration, normalized to the field lists that feed
/// answer and caption extraction (in priority order).
#[derive(Debug, PartialEq)]
pub struct SemanticConfiguration {
    pub name: String,
    /// Fields (in priority order) that feed answer extraction.
    pub answers_fields: Vec<String>,
    /// Fields (in priority order) that feed caption extraction.
    pub captions_fields: Vec<String>,
}

/// The mathematical value of a [`SemanticConfiguration`].
pub struct SemanticConfigurationV {
    pub name: Seq<char>,
    pub answers_fields: Seq<Seq<char>>,
    pub captions_fields: Seq<Seq<char>>,
}

impl View for SemanticConfiguration {
    type V = SemanticConfigurationV;

    open spec fn view(&self) -> SemanticConfigurationV {
        SemanticConfigurationV {
            name: self.name@,
            answers_fields: texts(self.answers_fields@),
            captions_fields: texts(self.captions_fields@),
        }
    }
}

pub open spec fn configuration_views(v: Seq<SemanticConfiguration>) -> Seq<SemanticConfigurationV> {
    v.map_values(|c: SemanticConfiguration| c@)
}

pub broadcast proof fn lemma_configuration_views_push(
    v: Seq<SemanticConfiguration>,
    c: SemanticConfiguration,
)
    ensures
        #[trigger] configuration_views(v.push(c)) == configuration_views(v).push(c@),
{
    assert(configuration_views(v.push(c)) =~= configuration_views(v).push(c@));
}

impl View for SemanticConfig {
    type V = Seq<SemanticConfigurationV>;

    open spec fn view(&self) -> Seq<SemanticConfigurationV> {
        configuration_views(self.configurations@)
    }
}

// ---------------------------------------------------------------------------
// Field lists
// ---------------------------------------------------------------------------

/// The field that a path leads to; the empty path leads to none.
pub open spec fn found_field(fields: Seq<FieldV>, path: Seq<char>) -> Option<FieldV> {
    if pieces(path, '/')[0].len() == 0 {
        None
    } else {
        field_by_path(fields, path)
    }
}

/// Looks up a top-level or complex-path field (`Address/City`) in the index
/// schema.
fn find_field<'a>(fields: &'a Vec<FieldDefinition>, path: &str) -> (r: Option<&'a FieldDefinition>)
    ensures
        opt_field(r) == found_field(field_views(fields@), path@),
{
    let segs = split_on(path, '/');
    assert(texts(segs@)[0] == segs@[0]@);
    if segs[0].as_str().is_empty() {
        return None;
    }
    find_by_path(fields, path)
}

pub open spec fn holds_text_type(f: FieldV) -> bool {
    f.field_type is String || f.field_type is CollectionString
}

/// Whether the field can supply answer/caption text: a string (or string
/// collection, for keywords-style fields).
fn is_text_field(field: &FieldDefinition) -> (r: bool)
    ensures
        r == holds_text_type(field@),
{
    matches!(field.field_type, FieldType::String | FieldType::CollectionString)
}

/// A list with a name at its end, where it is not in the list yet.
pub open spec fn with_unique(list: Seq<Seq<char>>, field: Seq<char>) -> Seq<Seq<char>> {
    if list.contains(field) {
        list
    } else {
        list.push(field)
    }
}

/// Pushes `field` onto `list` unless it is already present (first occurrence
/// wins, preserving priority order).
pub fn push_unique(list: &mut Vec<String>, field: &str)
    ensures
        texts(final(list)@) == with_unique(texts(old(list)@), field@),
{
    broadcast use lemma_texts_push;

    if !holds_text(list, field) {
        let ghost before = texts(list@);
        list.push(field.to_owned());
        assert(texts(list@) == before.push(field@));
    }
}

/// The field names of a priority list from `i` on, behind those in `done`.
pub open spec fn priority_names(
    names: Seq<JsonV>,
    i: int,
    done: Seq<Seq<char>>,
    key: Seq<char>,
    fields: Seq<FieldV>,
) -> Result<Seq<Seq<char>>, Seq<char>>
    decreases names.len() - i,
{
    if i >= names.len() {
        Ok(done)
    } else {
        match nonempty_str_of(Some(names[i])) {
            None => Err(
                "Semantic priorities "@ + debug_text(key) + " must be an array of field names."@,
            ),
            Some(name) => {
                let field = found_field(fields, name);
                if field is None || !field->Some_0.retrievable {
                    Err("Semantic priority field "@ + debug_text(name) + " must be retrievable."@)
                } else {
                    priority_names(names, i + 1, with_unique(done, name), key, fields)
                }
            },
        }
    }
}

/// The priority list under a key, where there is one.
pub open spec fn priority_list(
    priorities: Seq<(Seq<char>, JsonV)>,
    key: Seq<char>,
    fields: Seq<FieldV>,
) -> Result<Option<Seq<Seq<char>>>, Seq<char>> {
    match member(priorities, key) {
        None => Ok(None),
        Some(JsonV::Array(names)) => if names.len() == 0 {
            Err(
                "Semantic priorities "@ + debug_text(key)
                    + " must be a non-empty array of field names."@,
            )
        } else {
            match priority_names(names, 0, seq![], key, fields) {
                Ok(list) => Ok(Some(list)),
                Err(e) => Err(e),
            }
        },
        Some(_) => Err(
            "Semantic priorities "@ + debug_text(key) + " must be an array of field names."@,
        ),
    }
}

pub open spec fn list_or_empty(o: Option<Seq<Seq<char>>>) -> Seq<Seq<char>> {
    match o {
        Some(list) => list,
        None => seq![],
    }
}

/// The answers and captions fields of the `priorities` member.
pub open spec fn priorities_of(raw: JsonV, fields: Seq<FieldV>) -> Result<
    (Seq<Seq<char>>, Seq<Seq<char>>),
    Seq<char>,
> {
    match raw {
        JsonV::Object(m) => match priority_list(m, "answers"@, fields) {
            Err(e) => Err(e),
            Ok(answers) => match priority_list(m, "captions"@, fields) {
                Err(e) => Err(e),
                Ok(captions) => if answers is None && captions is None {
                    Err(
                        "Semantic priorities must contain a non-empty 'answers' and/or 'captions' array."@,
                    )
                } else {
                    Ok((list_or_empty(answers), list_or_empty(captions)))
                },
            },
        },
        _ => Err("The 'priorities' property must be a JSON object."@),
    }
}

/// What is wrong with one semantic source.
pub open spec fn source_problem(source: JsonV, fields: Seq<FieldV>) -> Option<Seq<char>> {
    match source {
        JsonV::Object(m) => match nonempty_str_of(member(m, "name"@)) {
            None => Some("Each semantic source requires a non-empty 'name' string."@),
            Some(name) => {
                let kind = match member(m, "type"@) {
                    Some(JsonV::String(s)) => s,
                    _ => "text"@,
                };
                if kind != "text"@ {
                    Some(
                        "Semantic source "@ + debug_text(name) + " has unsupported type "@
                            + debug_text(kind) + "; only 'text' is supported."@,
                    )
                } else {
                    match nonempty_str_of(member(m, "field"@)) {
                        None => Some(
                            "Semantic source "@ + debug_text(name) + " requires a 'field' string."@,
                        ),
                        Some(path) => {
                            let field = found_field(fields, path);
                            if field is None || !field->Some_0.searchable || !holds_text_type(
                                field->Some_0,
                            ) {
                                Some(
                                    "Semantic source field "@ + debug_text(path)
                                        + " must be searchable."@,
                                )
                            } else {
                                None
                            }
                        },
                    }
                }
            },
        },
        _ => Some("Each semantic source must be a JSON object."@),
    }
}

/// What is wrong with the first bad semantic source from `i` on.
pub open spec fn sources_problem(items: Seq<JsonV>, i: int, fields: Seq<FieldV>) -> Option<
    Seq<char>,
>
    decreases items.len() - i,
{
    if i >= items.len() {
        None
    } else {
        match source_problem(items[i], fields) {
            Some(e) => Some(e),
            None => sources_problem(items, i + 1, fields),
        }
    }
}

/// The answers and captions fields of the canonical `priorities` / `sources`
/// format.
pub open spec fn canonical_lists(m: Seq<(Seq<char>, JsonV)>, fields: Seq<FieldV>) -> Result<
    (Seq<Seq<char>>, Seq<Seq<char>>),
    Seq<char>,
> {
    let lists = match member(m, "priorities"@) {
        Some(raw) => priorities_of(raw, fields),
        None => Ok((seq![], seq![])),
    };
    match lists {
        Err(e) => Err(e),
        Ok(found) => match member(m, "sources"@) {
            None => Ok(found),
            Some(JsonV::Array(items)) => match sources_problem(items, 0, fields) {
                Some(e) => Err(e),
                None => Ok(found),
            },
            Some(_) => Err("The 'sources' property must be an array."@),
        },
    }
}

/// The member of a value that is an object.
pub open spec fn member_of(v: JsonV, key: Seq<char>) -> Option<JsonV> {
    match v {
        JsonV::Object(m) => member(m, key),
        _ => None,
    }
}

pub open spec fn unknown_priority(name: Seq<char>) -> Seq<char> {
    "Semantic priority field "@ + debug_text(name) + " must be retrievable."@
}

/// The lists behind the SDK entries from `i` on. Content fields feed answers
/// and captions, keywords fields only answers.
pub open spec fn sdk_entries(
    items: Seq<JsonV>,
    i: int,
    answers: Seq<Seq<char>>,
    captions: Seq<Seq<char>>,
    key: Seq<char>,
    feeds_captions: bool,
    fields: Seq<FieldV>,
) -> Result<(Seq<Seq<char>>, Seq<Seq<char>>), Seq<char>>
    decreases items.len() - i,
{
    if i >= items.len() {
        Ok((answers, captions))
    } else {
        match nonempty_str_of(member_of(items[i], "fieldName"@)) {
            None => Err(
                "Each "@ + debug_text(key) + " entry requires a non-empty 'fieldName' string."@,
            ),
            Some(name) => if found_field(fields, name) is None {
                Err(unknown_priority(name))
            } else {
                sdk_entries(
                    items,
                    i + 1,
                    with_unique(answers, name),
                    if feeds_captions {
                        with_unique(captions, name)
                    } else {
                        captions
                    },
                    key,
                    feeds_captions,
                    fields,
                )
            },
        }
    }
}

pub open spec fn sdk_list(
    m: Seq<(Seq<char>, JsonV)>,
    answers: Seq<Seq<char>>,
    captions: Seq<Seq<char>>,
    key: Seq<char>,
    feeds_captions: bool,
    fields: Seq<FieldV>,
) -> Result<(Seq<Seq<char>>, Seq<Seq<char>>), Seq<char>> {
    match member(m, key) {
        None => Ok((answers, captions)),
        Some(JsonV::Array(items)) => sdk_entries(
            items,
            0,
            answers,
            captions,
            key,
            feeds_captions,
            fields,
        ),
        Some(_) => Err("The "@ + debug_text(key) + " property must be an array."@),
    }
}

/// The lists that the title field starts.
pub open spec fn sdk_title(m: Seq<(Seq<char>, JsonV)>, fields: Seq<FieldV>) -> Result<
    (Seq<Seq<char>>, Seq<Seq<char>>),
    Seq<char>,
> {
    match member(m, "titleField"@) {
        None => Ok((seq![], seq![])),
        Some(JsonV::Null) => Ok((seq![], seq![])),
        Some(title) => match nonempty_str_of(member_of(title, "fieldName"@)) {
            None => Err("titleField requires a non-empty 'fieldName' string."@),
            Some(name) => if found_field(fields, name) is None {
                Err(unknown_priority(name))
            } else {
                Ok((seq![name], seq![name]))
            },
        },
    }
}

/// The answers and captions fields of the SDK `prioritizedFields` format.
pub open spec fn sdk_lists(raw: JsonV, fields: Seq<FieldV>) -> Result<
    (Seq<Seq<char>>, Seq<Seq<char>>),
    Seq<char>,
> {
    match raw {
        JsonV::Object(m) => match sdk_title(m, fields) {
            Err(e) => Err(e),
            Ok((a0, c0)) => match sdk_list(
                m,
                a0,
                c0,
                "prioritizedContentFields"@,
                true,
                fields,
            ) {
                Err(e) => Err(e),
                Ok((a1, c1)) => sdk_list(m, a1, c1, "prioritizedKeywordsFields"@, false, fields),
            },
        },
        _ => Err("The 'prioritizedFields' property must be a JSON object."@),
    }
}

// ---------------------------------------------------------------------------
// Configurations
// ---------------------------------------------------------------------------

pub open spec fn reranker_problem(m: Seq<(Seq<char>, JsonV)>) -> Option<Seq<char>> {
    match member(m, "reranker"@) {
        None => None,
        Some(JsonV::Null) => None,
        Some(raw) => match member_of(raw, "name"@) {
            Some(JsonV::String(name)) => if name != "standard"@ {
                Some(
                    "Unknown reranker "@ + debug_text(name) + "; only 'standard' is supported."@,
                )
            } else {
                None
            },
            _ => Some("The 'reranker' property requires a 'name' string."@),
        },
    }
}

pub open spec fn rescorers_problem(m: Seq<(Seq<char>, JsonV)>) -> Option<Seq<char>> {
    match member(m, "rescorers"@) {
        None => None,
        Some(JsonV::Array(items)) => if items.len() == 0 {
            None
        } else {
            Some("Rescorers are not supported."@)
        },
        Some(_) => Some("Rescorers are not supported."@),
    }
}

pub open spec fn configuration_lists(m: Seq<(Seq<char>, JsonV)>, fields: Seq<FieldV>) -> Result<
    (Seq<Seq<char>>, Seq<Seq<char>>),
    Seq<char>,
> {
    if member(m, "priorities"@) is Some || member(m, "sources"@) is Some {
        canonical_lists(m, fields)
    } else {
        match member(m, "prioritizedFields"@) {
            Some(raw) => sdk_lists(raw, fields),
            None => Ok((seq![], seq![])),
        }
    }
}

/// The semantic configuration that a JSON value defines.
pub open spec fn configuration_of(raw: JsonV, fields: Seq<FieldV>) -> Result<
    SemanticConfigurationV,
    Seq<char>,
> {
    match raw {
        JsonV::Object(m) => match nonempty_str_of(member(m, "name"@)) {
            None => Err("Each semantic configuration requires a non-empty 'name' string."@),
            Some(name) => match configuration_lists(m, fields) {
                Err(e) => Err(e),
                Ok((answers_fields, captions_fields)) => match reranker_problem(m) {
                    Some(e) => Err(e),
                    None => match rescorers_problem(m) {
                        Some(e) => Err(e),
                        None => Ok(
                            SemanticConfigurationV { name, answers_fields, captions_fields },
                        ),
                    },
                },
            },
        },
        _ => Err("Each semantic configuration must be a JSON object."@),
    }
}

pub open spec fn configurations_of(
    items: Seq<JsonV>,
    i: int,
    done: Seq<SemanticConfigurationV>,
    fields: Seq<FieldV>,
) -> Result<Seq<SemanticConfigurationV>, Seq<char>>
    decreases items.len() - i,
{
    if i >= items.len() {
        Ok(done)
    } else {
        match configuration_of(items[i], fields) {
            Err(e) => Err(e),
            Ok(c) => configurations_of(items, i + 1, done.push(c), fields),
        }
    }
}

/// Whether a configuration before place `i` has the name of that at place `i`.
pub open spec fn repeats(list: Seq<SemanticConfigurationV>, i: int) -> bool {
    exists|j: int| 0 <= j < i && (#[trigger] list[j]).name == list[i].name
}

/// The least in the order of texts of the names that repeat among the first
/// `n` configurations.
pub open spec fn least_repeated(list: Seq<SemanticConfigurationV>, n: int) -> Option<Seq<char>>
    decreases n,
{
    if n <= 0 {
        None
    } else {
        let best = least_repeated(list, n - 1);
        let name = list[n - 1].name;
        if repeats(list, n - 1) && (best is None || text_less(name, best->Some_0)) {
            Some(name)
        } else {
            best
        }
    }
}

/// The semantic configurations that the `semantic` member of an index defines.
pub open spec fn semantic_of(raw: JsonV, fields: Seq<FieldV>) -> Result<
    Seq<SemanticConfigurationV>,
    Seq<char>,
> {
    match raw {
        JsonV::Object(m) => match member(m, "configurations"@) {
            None => Err("The 'semantic' property requires a 'configurations' array."@),
            Some(JsonV::Array(items)) => if items.len() == 0 {
                Err("Semantic configuration must have at least one entry."@)
            } else {
                match configurations_of(items, 0, seq![], fields) {
                    Err(e) => Err(e),
                    Ok(list) => match least_repeated(list, list.len() as int) {
                        Some(name) => Err(
                            "Duplicate semantic configuration name "@ + debug_text(name) + "."@,
                        ),
                        None => Ok(list),
                    },
                }
            },
            Some(_) => Err("The 'semantic.configurations' property must be an array."@),
        },
        _ => Err("The 'semantic' property must be a JSON object."@),
    }
}

pub open spec fn lists_result(r: Result<(Vec<String>, Vec<String>), String>) -> Result<
    (Seq<Seq<char>>, Seq<Seq<char>>),
    Seq<char>,
> {
    match r {
        Ok((a, c)) => Ok((texts(a@), texts(c@))),
        Err(m) => Err(m@),
    }
}

pub open spec fn configuration_result(r: Result<SemanticConfiguration, String>) -> Result<
    SemanticConfigurationV,
    Seq<char>,
> {
    match r {
        Ok(c) => Ok(c@),
        Err(m) => Err(m@),
    }
}

pub open spec fn semantic_result(r: Result<Option<SemanticConfig>, String>) -> Result<
    Seq<SemanticConfigurationV>,
    Seq<char>,
> {
    match r {
        Ok(Some(c)) => Ok(c@),
        Ok(None) => Ok(seq![]),
        Err(m) => Err(m@),
    }
}

pub(crate) fn value_member<'a>(v: &'a Json, key: &str) -> (r: Option<&'a Json>)
    ensures
        opt_value(r) == member_of(v@, key@),
{
    broadcast use group_json;

    match v {
        Json::Object(m) => m.get(key),
        _ => None,
    }
}

fn read_priority_list(
    priorities: &JsonMap,
    key: &str,
    fields: &Vec<FieldDefinition>,
) -> (r: Result<Option<Vec<String>>, String>)
    ensures
        match r {
            Ok(Some(list)) => priority_list(priorities@, key@, field_views(fields@)) == Ok::<
                _,
                Seq<char>,
            >(Some(texts(list@))),
            Ok(None) => priority_list(priorities@, key@, field_views(fields@)) == Ok::<
                _,
                Seq<char>,
            >(None::<Seq<Seq<char>>>),
            Err(m) => priority_list(priorities@, key@, field_views(fields@)) == Err::<
                Option<Seq<Seq<char>>>,
                _,
            >(m@),
        },
{
    broadcast use group_json;

    let raw = match priorities.get(key) {
        Some(raw) => raw,
        None => {
            return Ok(None);
        },
    };
    let names = match raw.as_array() {
        Some(names) => names,
        None => {
            return Err(
                cat3(
                    "Semantic priorities ",
                    quoted(key).as_str(),
                    " must be an array of field names.",
                ),
            );
        },
    };
    if names.len() == 0 {
        return Err(
            cat3(
                "Semantic priorities ",
                quoted(key).as_str(),
                " must be a non-empty array of field names.",
            ),
        );
    }
    let ghost all = values(names@);
    let ghost fs = field_views(fields@);
    let mut list: Vec<String> = Vec::new();
    let mut i: usize = 0;
    assert(texts(list@) =~= seq![]);
    while i < names.len()
        invariant
            all == values(names@),
            names@.len() > 0,
            fs == field_views(fields@),
            member(priorities@, key@) == Some(JsonV::Array(all)),
            i <= names@.len(),
            priority_names(all, 0, seq![], key@, fs) == priority_names(
                all,
                i as int,
                texts(list@),
                key@,
                fs,
            ),
        decreases names@.len() - i,
    {
        assert(all[i as int] == names@[i as int]@);
        let name = match nonempty_str(Some(&names[i])) {
            Some(name) => name,
            None => {
                return Err(
                    cat3(
                        "Semantic priorities ",
                        quoted(key).as_str(),
                        " must be an array of field names.",
                    ),
                );
            },
        };
        let retrievable = match find_field(fields, name) {
            Some(f) => f.retrievable,
            None => false,
        };
        if !retrievable {
            return Err(
                cat3(
                    "Semantic priority field ",
                    quoted(name).as_str(),
                    " must be retrievable.",
                ),
            );
        }
        push_unique(&mut list, name);
        i += 1;
    }
    Ok(Some(list))
}

fn check_source(entry: &Json, fields: &Vec<FieldDefinition>) -> (r: Option<String>)
    ensures
        opt_text(r) == source_problem(entry@, field_views(fields@)),
{
    let source = match entry.as_object() {
        Some(source) => source,
        None => {
            return Some("Each semantic source must be a JSON object.".to_owned());
        },
    };
    let name = match nonempty_str(source.get("name")) {
        Some(name) => name,
        None => {
            return Some("Each semantic source requires a non-empty 'name' string.".to_owned());
        },
    };
    let kind = match source.get("type") {
        Some(Json::String(s)) => s.as_str(),
        _ => "text",
    };
    if !same_text(kind, "text") {
        return Some(
            cat5(
                "Semantic source ",
                quoted(name).as_str(),
                " has unsupported type ",
                quoted(kind).as_str(),
                "; only 'text' is supported.",
            ),
        );
    }
    let path = match nonempty_str(source.get("field")) {
        Some(path) => path,
        None => {
            return Some(
                cat3("Semantic source ", quoted(name).as_str(), " requires a 'field' string."),
            );
        },
    };
    let usable = match find_field(fields, path) {
        Some(f) => f.searchable && is_text_field(f),
        None => false,
    };
    if usable {
        None
    } else {
        Some(cat3("Semantic source field ", quoted(path).as_str(), " must be searchable."))
    }
}

impl SemanticConfiguration {
    /// Parses the canonical `priorities` / `sources` format into
    /// `(answers_fields, captions_fields)`.
    fn canonical_fields(obj: &JsonMap, fields: &Vec<FieldDefinition>) -> (r: Result<
        (Vec<String>, Vec<String>),
        String,
    >)
        ensures
            lists_result(r) == canonical_lists(obj@, field_views(fields@)),
    {
        broadcast use group_json;

        let mut answers_fields: Vec<String> = Vec::new();
        let mut captions_fields: Vec<String> = Vec::new();
        assert(texts(answers_fields@) =~= seq![]);
        assert(texts(captions_fields@) =~= seq![]);
        if let Some(raw) = obj.get("priorities") {
            let priorities = match raw.as_object() {
                Some(priorities) => priorities,
                None => {
                    return Err("The 'priorities' property must be a JSON object.".to_owned());
                },
            };
            let answers = read_priority_list(priorities, "answers", fields)?;
            let captions = read_priority_list(priorities, "captions", fields)?;
            if answers.is_none() && captions.is_none() {
                return Err(
                    "Semantic priorities must contain a non-empty 'answers' and/or 'captions' array.".to_owned(),
                );
            }
            if let Some(list) = answers {
                answers_fields = list;
            }
            if let Some(list) = captions {
                captions_fields = list;
            }
        }
        let ghost found = (texts(answers_fields@), texts(captions_fields@));
        if let Some(raw) = obj.get("sources") {
            let sources = match raw.as_array() {
                Some(sources) => sources,
                None => {
                    return Err("The 'sources' property must be an array.".to_owned());
                },
            };
            let ghost all = values(sources@);
            let ghost fs = field_views(fields@);
            let mut i: usize = 0;
            while i < sources.len()
                invariant
                    all == values(sources@),
                    fs == field_views(fields@),
                    i <= sources@.len(),
                    sources_problem(all, 0, fs) == sources_problem(all, i as int, fs),
                    canonical_lists(obj@, fs) == (match sources_problem(all, 0, fs) {
                        Some(e) => Err(e),
                        None => Ok(found),
                    }),
                decreases sources@.len() - i,
            {
                assert(all[i as int] == sources@[i as int]@);
                if let Some(problem) = check_source(&sources[i], fields) {
                    return Err(problem);
                }
                i += 1;
            }
        }
        Ok((answers_fields, captions_fields))
    }

    /// Normalizes the SDK `prioritizedFields` format into
    /// `(answers_fields, captions_fields)`: the title field feeds answers and
    /// captions (context role), content fields feed answers and captions, and
    /// keywords fields feed answers. Validation is lenient: referenced fields
    /// must exist, without the canonical searchable/retrievable checks.
    fn sdk_fields(value: &Json, fields: &Vec<FieldDefinition>) -> (r: Result<
        (Vec<String>, Vec<String>),
        String,
    >)
        ensures
            lists_result(r) == sdk_lists(value@, field_views(fields@)),
    {
        broadcast use {group_json, lemma_texts_push};

        let obj = match value.as_object() {
            Some(obj) => obj,
            None => {
                return Err("The 'prioritizedFields' property must be a JSON object.".to_owned());
            },
        };
        let mut answers: Vec<String> = Vec::new();
        let mut captions: Vec<String> = Vec::new();
        assert(texts(answers@) =~= seq![]);
        assert(texts(captions@) =~= seq![]);
        if let Some(title) = obj.get("titleField") {
            if !title.is_null() {
                let name = match nonempty_str(value_member(title, "fieldName")) {
                    Some(name) => name,
                    None => {
                        return Err("titleField requires a non-empty 'fieldName' string.".to_owned());
                    },
                };
                if find_field(fields, name).is_none() {
                    return Err(
                        cat3(
                            "Semantic priority field ",
                            quoted(name).as_str(),
                            " must be retrievable.",
                        ),
                    );
                }
                answers.push(name.to_owned());
                captions.push(name.to_owned());
                assert(texts(answers@) =~= seq![name@]);
                assert(texts(captions@) =~= seq![name@]);
            }
        }
        assert(sdk_title(obj@, field_views(fields@)) == Ok::<_, Seq<char>>(
            (texts(answers@), texts(captions@)),
        ));
        let (answers, captions) = SemanticConfiguration::sdk_entry_list(
            obj,
            answers,
            captions,
            "prioritizedContentFields",
            true,
            fields,
        )?;
        SemanticConfiguration::sdk_entry_list(
            obj,
            answers,
            captions,
            "prioritizedKeywordsFields",
            false,
            fields,
        )
    }

    fn sdk_entry_list(
        obj: &JsonMap,
        answers: Vec<String>,
        captions: Vec<String>,
        key: &str,
        feeds_captions: bool,
        fields: &Vec<FieldDefinition>,
    ) -> (r: Result<(Vec<String>, Vec<String>), String>)
        ensures
            lists_result(r) == sdk_list(
                obj@,
                texts(answers@),
                texts(captions@),
                key@,
                feeds_captions,
                field_views(fields@),
            ),
    {
        broadcast use group_json;

        let raw = match obj.get(key) {
            Some(raw) => raw,
            None => {
                return Ok((answers, captions));
            },
        };
        let entries = match raw.as_array() {
            Some(entries) => entries,
            None => {
                return Err(cat3("The ", quoted(key).as_str(), " property must be an array."));
            },
        };
        let ghost all = values(entries@);
        let ghost fs = field_views(fields@);
        let ghost a0 = texts(answers@);
        let ghost c0 = texts(captions@);
        let mut a = answers;
        let mut c = captions;
        let mut i: usize = 0;
        while i < entries.len()
            invariant
                all == values(entries@),
                fs == field_views(fields@),
                i <= entries@.len(),
                member(obj@, key@) == Some(JsonV::Array(all)),
                a0 == texts(answers@),
                c0 == texts(captions@),
                sdk_entries(all, 0, a0, c0, key@, feeds_captions, fs) == sdk_entries(
                    all,
                    i as int,
                    texts(a@),
                    texts(c@),
                    key@,
                    feeds_captions,
                    fs,
                ),
            decreases entries@.len() - i,
        {
            assert(all[i as int] == entries@[i as int]@);
            let name = match nonempty_str(value_member(&entries[i], "fieldName")) {
                Some(name) => name,
                None => {
                    return Err(
                        cat3(
                            "Each ",
                            quoted(key).as_str(),
                            " entry requires a non-empty 'fieldName' string.",
                        ),
                    );
                },
            };
            if find_field(fields, name).is_none() {
                return Err(
                    cat3(
                        "Semantic priority field ",
                        quoted(name).as_str(),
                        " must be retrievable.",
                    ),
                );
            }
            push_unique(&mut a, name);
            if feeds_captions {
                push_unique(&mut c, name);
            }
            i += 1;
        }
        Ok((a, c))
    }

    fn from_json(value: &Json, fields: &Vec<FieldDefinition>) -> (r: Result<
        SemanticConfiguration,
        String,
    >)
        ensures
            configuration_result(r) == configuration_of(value@, field_views(fields@)),
    {
        broadcast use group_json;

        let obj = match value.as_object() {
            Some(obj) => obj,
            None => {
                return Err("Each semantic configuration must be a JSON object.".to_owned());
            },
        };
        let name = match nonempty_str(obj.get("name")) {
            Some(name) => name.to_owned(),
            None => {
                return Err(
                    "Each semantic configuration requires a non-empty 'name' string.".to_owned(),
                );
            },
        };
        let (answers_fields, captions_fields) = if obj.contains_key("priorities")
            || obj.contains_key("sources") {
            SemanticConfiguration::canonical_fields(obj, fields)?
        } else {
            match obj.get("prioritizedFields") {
                Some(raw) => SemanticConfiguration::sdk_fields(raw, fields)?,
                None => {
                    let a: Vec<String> = Vec::new();
                    let c: Vec<String> = Vec::new();
                    assert(texts(a@) =~= seq![]);
                    assert(texts(c@) =~= seq![]);
                    (a, c)
                },
            }
        };
        if let Some(raw) = obj.get("reranker") {
            if !raw.is_null() {
                let reranker = match value_member(raw, "name") {
                    Some(Json::String(reranker)) => reranker,
                    _ => {
                        return Err("The 'reranker' property requires a 'name' string.".to_owned());
                    },
                };
                if !same_text(reranker.as_str(), "standard") {
                    return Err(
                        cat3(
                            "Unknown reranker ",
                            quoted(reranker.as_str()).as_str(),
                            "; only 'standard' is supported.",
                        ),
                    );
                }
            }
        }
        if let Some(raw) = obj.get("rescorers") {
            let empty = match raw.as_array() {
                Some(items) => items.len() == 0,
                None => false,
            };
            if !empty {
                return Err("Rescorers are not supported.".to_owned());
            }
        }
        Ok(SemanticConfiguration { name, answers_fields, captions_fields })
    }

    pub fn duplicate(&self) -> (r: SemanticConfiguration)
        ensures
            r@ == self@,
    {
        SemanticConfiguration {
            name: self.name.clone(),
            answers_fields: clone_texts(&self.answers_fields),
            captions_fields: clone_texts(&self.captions_fields),
        }
    }
}

fn repeats_before(list: &Vec<SemanticConfiguration>, i: usize) -> (r: bool)
    requires
        i < list@.len(),
    ensures
        r == repeats(configuration_views(list@), i as int),
{
    let ghost all = configuration_views(list@);
    assert(all[i as int] == list@[i as int]@);
    let mut j: usize = 0;
    while j < i
        invariant
            i < list@.len(),
            j <= i,
            all == configuration_views(list@),
            all[i as int] == list@[i as int]@,
            forall|k: int| 0 <= k < j ==> (#[trigger] all[k]).name != all[i as int].name,
        decreases i - j,
    {
        assert(all[j as int] == list@[j as int]@);
        if same_text(list[j].name.as_str(), list[i].name.as_str()) {
            return true;
        }
        j += 1;
    }
    false
}

impl SemanticConfig {
    /// Parses the `semantic` block from an index definition JSON value,
    /// validating it against the index `fields`. The index-level
    /// `defaultConfiguration` is accepted but inert (every semantic query must
    /// still name its configuration).
    pub fn from_json(value: &Json, fields: &Vec<FieldDefinition>) -> (r: Result<
        Option<SemanticConfig>,
        String,
    >)
        ensures
            r is Ok ==> r->Ok_0 is Some,
            semantic_result(r) == semantic_of(value@, field_views(fields@)),
    {
        broadcast use {group_json, lemma_configuration_views_push};

        let obj = match value.as_object() {
            Some(obj) => obj,
            None => {
                return Err("The 'semantic' property must be a JSON object.".to_owned());
            },
        };
        let raw = match obj.get("configurations") {
            Some(raw) => raw,
            None => {
                return Err(
                    "The 'semantic' property requires a 'configurations' array.".to_owned(),
                );
            },
        };
        let entries = match raw.as_array() {
            Some(entries) => entries,
            None => {
                return Err("The 'semantic.configurations' property must be an array.".to_owned());
            },
        };
        if entries.len() == 0 {
            return Err("Semantic configuration must have at least one entry.".to_owned());
        }
        let ghost all = values(entries@);
        let ghost fs = field_views(fields@);
        let mut configurations: Vec<SemanticConfiguration> = Vec::new();
        let mut i: usize = 0;
        assert(configuration_views(configurations@) =~= seq![]);
        while i < entries.len()
            invariant
                all == values(entries@),
                all.len() > 0,
                fs == field_views(fields@),
                value@ == JsonV::Object(obj@),
                member(obj@, "configurations"@) == Some(JsonV::Array(all)),
                i <= entries@.len(),
                configurations_of(all, 0, seq![], fs) == configurations_of(
                    all,
                    i as int,
                    configuration_views(configurations@),
                    fs,
                ),
            decreases entries@.len() - i,
        {
            assert(all[i as int] == entries@[i as int]@);
            let c = SemanticConfiguration::from_json(&entries[i], fields)?;
            let ghost before = configuration_views(configurations@);
            configurations.push(c);
            assert(configuration_views(configurations@) == before.push(c@));
            i += 1;
        }
        let ghost list = configuration_views(configurations@);
        let mut best: Option<String> = None;
        let mut n: usize = 0;
        while n < configurations.len()
            invariant
                list == configuration_views(configurations@),
                n <= configurations@.len(),
                opt_text(best) == least_repeated(list, n as int),
            decreases configurations@.len() - n,
        {
            assert(list[n as int] == configurations@[n as int]@);
            if repeats_before(&configurations, n) {
                let name = configurations[n].name.clone();
                let smaller = match &best {
                    None => true,
                    Some(b) => text_before(name.as_str(), b.as_str()),
                };
                if smaller {
                    best = Some(name);
                }
            }
            n += 1;
        }
        if let Some(name) = best {
            return Err(
                cat3(
                    "Duplicate semantic configuration name ",
                    quoted(name.as_str()).as_str(),
                    ".",
                ),
            );
        }
        Ok(Some(SemanticConfig { configurations }))
    }

    /// Looks up a configuration by name.
    pub fn configuration(&self, name: &str) -> (r: Option<&SemanticConfiguration>)
        ensures
            match r {
                Some(c) => configuration_named(self@, name@, 0) == Some(c@),
                None => configuration_named(self@, name@, 0) is None,
            },
    {
        let mut i: usize = 0;
        while i < self.configurations.len()
            invariant
                i <= self.configurations@.len(),
                configuration_named(self@, name@, 0) == configuration_named(
                    self@,
                    name@,
                    i as int,
                ),
            decreases self.configurations@.len() - i,
        {
            assert(self@[i as int] == self.configurations@[i as int]@);
            if same_text(self.configurations[i].name.as_str(), name) {
                return Some(&self.configurations[i]);
            }
            i += 1;
        }
        None
    }

    pub fn duplicate(&self) -> (r: SemanticConfig)
        ensures
            r@ == self@,
    {
        broadcast use lemma_configuration_views_push;

        let mut out: Vec<SemanticConfiguration> = Vec::new();
        let mut i: usize = 0;
        while i < self.configurations.len()
            invariant
                i <= self.configurations@.len(),
                configuration_views(out@) == self@.take(i as int),
            decreases self.configurations@.len() - i,
        {
            let ghost before = configuration_views(out@);
            let c = self.configurations[i].duplicate();
            out.push(c);
            assert(configuration_views(out@) == before.push(c@));
            i += 1;
            assert(configuration_views(out@) =~= self@.take(i as int));
        }
        assert(self@.take(self@.len() as int) =~= self@);
        SemanticConfig { configurations: out }
    }
}

/// The first of the configurations from `i` on with a name.
pub open spec fn configuration_named(
    list: Seq<SemanticConfigurationV>,
    name: Seq<char>,
    i: int,
) -> Option<SemanticConfigurationV>
    decreases list.len() - i,
{
    if i >= list.len() {
        None
    } else if list[i].name == name {
        Some(list[i])
    } else {
        configuration_named(list, name, i + 1)
    }
}

/// The configurations of an index have different names.
pub proof fn law_configuration_names_differ(raw: JsonV, fields: Seq<FieldV>, i: int, j: int)
    requires
        semantic_of(raw, fields) is Ok,
        0 <= i < j < semantic_of(raw, fields)->Ok_0.len(),
    ensures
        semantic_of(raw, fields)->Ok_0[i].name != semantic_of(raw, fields)->Ok_0[j].name,
{
    let list = semantic_of(raw, fields)->Ok_0;
    lemma_no_repeat(list, list.len() as int, j);
    if list[i].name == list[j].name {
        assert(repeats(list, j));
    }
}

proof fn lemma_no_repeat(list: Seq<SemanticConfigurationV>, n: int, j: int)
    requires
        least_repeated(list, n) is None,
        0 <= j < n <= list.len(),
    ensures
        !repeats(list, j),
    decreases n,
{
    if j < n - 1 {
        lemma_no_repeat(list, n - 1, j);
    }
}

} // verus!
