//! What semantic configurations and options say, from how they are written.
use crate::error::ApiErrorV;
use crate::json::{JsonV, Number, member, nonempty_str_of};
use crate::semantic::config::{
    SemanticConfigurationV, configuration_of, configurations_of, found_field, member_of,
    priority_names, sdk_entries, semantic_of, source_problem, sources_problem, with_unique,
};
use crate::semantic::query::{
    SemanticLimits, SemanticQueryAnswers, SemanticQueryCaptions, answers_block_of,
    captions_block_of, only_strings, opt_answers_of, opt_captions_of, questions_of,
    semantic_query_of,
};
use crate::storage::definition::FieldV;
use vstd::prelude::*;

verus! {

proof fn lemma_configurations(
    items: Seq<JsonV>,
    i: int,
    done: Seq<SemanticConfigurationV>,
    fields: Seq<FieldV>,
)
    requires
        0 <= i <= items.len(),
    ensures
        configurations_of(items, i, done, fields) is Ok <==> forall|k: int|
            i <= k < items.len() ==> configuration_of(#[trigger] items[k], fields) is Ok,
        configurations_of(items, i, done, fields) matches Ok(r) ==> r.len() == done.len()
            + items.len() - i && (forall|k: int| 0 <= k < done.len() ==> #[trigger] r[k] == done[k])
            && (forall|k: int|
            i <= k < items.len() ==> configuration_of(#[trigger] items[k], fields) == Ok::<
                SemanticConfigurationV,
                Seq<char>,
            >(r[done.len() + k - i])),
    decreases items.len() - i,
{
    if i < items.len() {
        if let Ok(c) = configuration_of(items[i], fields) {
            let more = done.push(c);
            lemma_configurations(items, i + 1, more, fields);
            if let Ok(r) = configurations_of(items, i, done, fields) {
                assert forall|k: int| 0 <= k < done.len() implies #[trigger] r[k] == done[k] by {
                    assert(more[k] == done[k]);
                }
                assert(r[done.len() as int] == more[done.len() as int]);
            }
        } else {
            assert(configuration_of(items[i], fields) is Err);
        }
    }
}

/// Each configuration of a semantic member is read, in its place; it is refused where
/// one cannot be read, or where there is none.
pub proof fn law_every_configuration_is_read(
    m: Seq<(Seq<char>, JsonV)>,
    items: Seq<JsonV>,
    fields: Seq<FieldV>,
    k: int,
)
    requires
        member(m, "configurations"@) == Some(JsonV::Array(items)),
    ensures
        ({
            let r = semantic_of(JsonV::Object(m), fields);
            &&& r is Ok ==> r->Ok_0.len() == items.len() && items.len() > 0
            &&& r is Ok && 0 <= k < items.len() ==> configuration_of(items[k], fields) == Ok::<
                SemanticConfigurationV,
                Seq<char>,
            >(r->Ok_0[k])
            &&& 0 <= k < items.len() && configuration_of(items[k], fields) is Err ==> r is Err
            &&& items.len() == 0 ==> r is Err
        }),
{
    lemma_configurations(items, 0, seq![], fields);
    if let Ok(list) = semantic_of(JsonV::Object(m), fields) {
        if 0 <= k < items.len() {
            assert(configuration_of(items[k], fields) == Ok::<SemanticConfigurationV, Seq<char>>(
                list[0 + k - 0],
            ));
        }
    }
}

/// A configuration has the name that it says.
pub proof fn law_configuration_is_named(m: Seq<(Seq<char>, JsonV)>, fields: Seq<FieldV>)
    ensures
        configuration_of(JsonV::Object(m), fields) matches Ok(c) ==> member(m, "name"@) == Some(
            JsonV::String(c.name),
        ) && c.name.len() > 0,
        !(member(m, "name"@) matches Some(JsonV::String(_))) ==> configuration_of(
            JsonV::Object(m),
            fields,
        ) is Err,
{
}

proof fn lemma_priority_names(
    names: Seq<JsonV>,
    x: JsonV,
    i: int,
    done: Seq<Seq<char>>,
    key: Seq<char>,
    fields: Seq<FieldV>,
)
    requires
        0 <= i <= names.len(),
    ensures
        ({
            let r = priority_names(names, i, done, key, fields);
            let all = priority_names(names.push(x), i, done, key, fields);
            match (r, x) {
                (Err(e), _) => all == r,
                (Ok(list), JsonV::String(s)) => if s.len() > 0 && can_show(fields, s) {
                    all == Ok::<Seq<Seq<char>>, Seq<char>>(if list.contains(s) {
                        list
                    } else {
                        list.push(s)
                    })
                } else {
                    all is Err
                },
                (Ok(_), _) => all is Err,
            }
        }),
    decreases names.len() - i,
{
    let all = names.push(x);
    if i < names.len() {
        assert(all[i] == names[i]);
        if let Some(name) = nonempty_str_of(Some(names[i])) {
            lemma_priority_names(names, x, i + 1, with_unique(done, name), key, fields);
        }
    } else {
        assert(all[i] == x);
        if let JsonV::String(s) = x {
            let more = with_unique(done, s);
            assert(priority_names(all, i + 1, more, key, fields) == Ok::<
                Seq<Seq<char>>,
                Seq<char>,
            >(more));
        }
    }
}

/// Whether a path leads to a field that can be shown.
pub open spec fn can_show(fields: Seq<FieldV>, path: Seq<char>) -> bool {
    match found_field(fields, path) {
        Some(f) => f.retrievable,
        None => false,
    }
}

/// Each name of a priority list counts once, where it first stands; it must be that of a
/// field that can be shown.
pub proof fn law_every_priority_counts(
    names: Seq<JsonV>,
    x: JsonV,
    key: Seq<char>,
    fields: Seq<FieldV>,
)
    ensures
        priority_names(seq![], 0, seq![], key, fields) == Ok::<Seq<Seq<char>>, Seq<char>>(seq![]),
        ({
            let r = priority_names(names, 0, seq![], key, fields);
            let all = priority_names(names.push(x), 0, seq![], key, fields);
            match (r, x) {
                (Err(e), _) => all == r,
                (Ok(list), JsonV::String(s)) => if s.len() > 0 && can_show(fields, s) {
                    all == Ok::<Seq<Seq<char>>, Seq<char>>(if list.contains(s) {
                        list
                    } else {
                        list.push(s)
                    })
                } else {
                    all is Err
                },
                (Ok(_), _) => all is Err,
            }
        }),
{
    lemma_priority_names(names, x, 0, seq![], key, fields);
}

proof fn lemma_sources(items: Seq<JsonV>, i: int, fields: Seq<FieldV>)
    requires
        0 <= i <= items.len(),
    ensures
        sources_problem(items, i, fields) is None <==> forall|k: int|
            i <= k < items.len() ==> source_problem(#[trigger] items[k], fields) is None,
    decreases items.len() - i,
{
    if i < items.len() {
        lemma_sources(items, i + 1, fields);
        assert(source_problem(items[i], fields) is None || source_problem(items[i], fields)
            is Some);
    }
}

/// Each source of a configuration is looked at: it has a name, and the field that it
/// names can be searched and holds texts.
pub proof fn law_every_source_is_checked(
    items: Seq<JsonV>,
    fields: Seq<FieldV>,
    m: Seq<(Seq<char>, JsonV)>,
    path: Seq<char>,
)
    ensures
        sources_problem(items, 0, fields) is None <==> forall|k: int|
            0 <= k < items.len() ==> source_problem(#[trigger] items[k], fields) is None,
        source_problem(JsonV::Object(m), fields) is None && member(m, "field"@) == Some(
            JsonV::String(path),
        ) ==> (found_field(fields, path) matches Some(f) && f.searchable && (f.field_type is String
            || f.field_type is CollectionString)),
        source_problem(JsonV::Object(m), fields) is None ==> member(m, "name"@) is Some && member(
            m,
            "field"@,
        ) is Some,
{
    lemma_sources(items, 0, fields);
}

// ---------------------------------------------------------------------------
// Options
// ---------------------------------------------------------------------------

proof fn lemma_only_strings(items: Seq<JsonV>, i: int, done: Seq<Seq<char>>)
    requires
        0 <= i <= items.len(),
    ensures
        only_strings(items, i, done) is Some <==> forall|k: int|
            i <= k < items.len() ==> #[trigger] items[k] is String,
        only_strings(items, i, done) matches Some(r) ==> r.len() == done.len() + items.len() - i && (
        forall|k: int| 0 <= k < done.len() ==> #[trigger] r[k] == done[k]) && (forall|k: int|
            i <= k < items.len() ==> #[trigger] items[k] == JsonV::String(r[done.len() + k - i])),
    decreases items.len() - i,
{
    if i < items.len() {
        if let JsonV::String(s) = items[i] {
            let more = done.push(s);
            lemma_only_strings(items, i + 1, more);
            if let Some(r) = only_strings(items, i, done) {
                assert forall|k: int| 0 <= k < done.len() implies #[trigger] r[k] == done[k] by {
                    assert(more[k] == done[k]);
                }
                assert(r[done.len() as int] == more[done.len() as int]);
            }
        } else {
            assert(!(items[i] is String));
        }
    }
}

/// Each question of a semantic query counts, in its place, and all must be texts.
pub proof fn law_every_question_is_read(
    m: Seq<(Seq<char>, JsonV)>,
    items: Seq<JsonV>,
    k: int,
)
    requires
        member(m, "questions"@) == Some(JsonV::Array(items)),
    ensures
        ({
            let r = questions_of(Some(JsonV::Object(m)));
            &&& r is Ok <==> forall|i: int| 0 <= i < items.len() ==> #[trigger] items[i] is String
            &&& r is Ok ==> r->Ok_0.len() == items.len()
            &&& r is Ok && 0 <= k < items.len() ==> items[k] == JsonV::String(r->Ok_0[k])
        }),
{
    lemma_only_strings(items, 0, seq![]);
    if let Ok(list) = questions_of(Some(JsonV::Object(m))) {
        if 0 <= k < items.len() {
            assert(items[k] == JsonV::String(list[0 + k - 0]));
        }
    }
}

/// A block of answers or captions asks for as many as it says, between one and the
/// limit; a semantic query names its configuration.
pub proof fn law_semantic_counts(
    m: Seq<(Seq<char>, JsonV)>,
    label: Seq<char>,
    limits: SemanticLimits,
    n: u64,
)
    requires
        member(m, "type"@) is None,
        member(m, "count"@) == Some(JsonV::Number(Number::PosInt(n))),
    ensures
        answers_block_of(JsonV::Object(m), label, limits) is Ok <==> 1 <= n <= limits.max_answers,
        answers_block_of(JsonV::Object(m), label, limits) matches Ok(a) ==> a.count == n,
        captions_block_of(JsonV::Object(m), limits) matches Ok(c) ==> c.count == n && n
            <= limits.max_captions && n >= 1,
{
}

/// A semantic query is for the configuration that it names; the questions, answers and
/// captions are those that it asks for.
pub proof fn law_semantic_query(m: Seq<(Seq<char>, JsonV)>, limits: SemanticLimits)
    ensures
        semantic_query_of(JsonV::Object(m), limits) matches Ok(Some(q)) ==> {
            &&& member(m, "semanticConfiguration"@) == Some(JsonV::String(q.configuration))
            &&& questions_of(member(m, "queryContext"@)) == Ok::<Seq<Seq<char>>, ApiErrorV>(
                q.questions,
            )
            &&& opt_answers_of(member(m, "answers"@), "semantic.answers"@, limits) == Ok::<
                Option<SemanticQueryAnswers>,
                ApiErrorV,
            >(q.answers)
            &&& opt_captions_of(member(m, "captions"@), limits) == Ok::<
                Option<SemanticQueryCaptions>,
                ApiErrorV,
            >(q.captions)
        },
        !(semantic_query_of(JsonV::Object(m), limits) matches Ok(None)),
{
}

// ---------------------------------------------------------------------------
// Prioritized fields
// ---------------------------------------------------------------------------

proof fn lemma_sdk_entries(
    items: Seq<JsonV>,
    x: JsonV,
    i: int,
    answers: Seq<Seq<char>>,
    captions: Seq<Seq<char>>,
    key: Seq<char>,
    feeds_captions: bool,
    fields: Seq<FieldV>,
)
    requires
        0 <= i <= items.len(),
    ensures
        ({
            let r = sdk_entries(items, i, answers, captions, key, feeds_captions, fields);
            let all = sdk_entries(items.push(x), i, answers, captions, key, feeds_captions, fields);
            match (r, nonempty_str_of(member_of(x, "fieldName"@))) {
                (Err(_), _) => all == r,
                (Ok((a, c)), Some(name)) => if found_field(fields, name) is Some {
                    all == Ok::<(Seq<Seq<char>>, Seq<Seq<char>>), Seq<char>>(
                        (with_unique(a, name), if feeds_captions {
                            with_unique(c, name)
                        } else {
                            c
                        }),
                    )
                } else {
                    all is Err
                },
                (Ok(_), None) => all is Err,
            }
        }),
    decreases items.len() - i,
{
    let all = items.push(x);
    if i < items.len() {
        assert(all[i] == items[i]);
        if let Some(name) = nonempty_str_of(member_of(items[i], "fieldName"@)) {
            lemma_sdk_entries(
                items,
                x,
                i + 1,
                with_unique(answers, name),
                if feeds_captions {
                    with_unique(captions, name)
                } else {
                    captions
                },
                key,
                feeds_captions,
                fields,
            );
        }
    } else {
        assert(all[i] == x);
        if let Some(name) = nonempty_str_of(member_of(x, "fieldName"@)) {
            let a = with_unique(answers, name);
            let c = if feeds_captions {
                with_unique(captions, name)
            } else {
                captions
            };
            assert(sdk_entries(all, i + 1, a, c, key, feeds_captions, fields) == Ok::<
                (Seq<Seq<char>>, Seq<Seq<char>>),
                Seq<char>,
            >((a, c)));
        }
    }
}

/// Each entry of a list of prioritized fields names a field of the index, which counts
/// for answers, and for captions where the list feeds them; each field counts once.
pub proof fn law_every_prioritized_field_counts(
    items: Seq<JsonV>,
    x: JsonV,
    answers: Seq<Seq<char>>,
    captions: Seq<Seq<char>>,
    key: Seq<char>,
    feeds_captions: bool,
    fields: Seq<FieldV>,
    list: Seq<Seq<char>>,
    name: Seq<char>,
)
    ensures
        sdk_entries(seq![], 0, answers, captions, key, feeds_captions, fields) == Ok::<
            (Seq<Seq<char>>, Seq<Seq<char>>),
            Seq<char>,
        >((answers, captions)),
        ({
            let r = sdk_entries(items, 0, answers, captions, key, feeds_captions, fields);
            let all = sdk_entries(items.push(x), 0, answers, captions, key, feeds_captions, fields);
            match (r, nonempty_str_of(member_of(x, "fieldName"@))) {
                (Err(_), _) => all == r,
                (Ok((a, c)), Some(name)) => if found_field(fields, name) is Some {
                    all == Ok::<(Seq<Seq<char>>, Seq<Seq<char>>), Seq<char>>(
                        (with_unique(a, name), if feeds_captions {
                            with_unique(c, name)
                        } else {
                            c
                        }),
                    )
                } else {
                    all is Err
                },
                (Ok(_), None) => all is Err,
            }
        }),
        with_unique(list, name).contains(name),
        list.contains(name) ==> with_unique(list, name) == list,
        !list.contains(name) ==> with_unique(list, name) == list.push(name),
{
    lemma_sdk_entries(items, x, 0, answers, captions, key, feeds_captions, fields);
    if !list.contains(name) {
        assert(list.push(name)[list.len() as int] == name);
    }
}

} // verus!
