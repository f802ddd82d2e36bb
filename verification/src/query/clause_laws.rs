//! What a simple query asks of documents, from what their fields say.
use crate::json::JsonV;
use crate::query::analyzers::{pipeline_tokens, terms_of, tokenizer_name};
use crate::query::engine::{
    document_tokens, fields_in, indexed, law_deleted_document_is_gone, law_fuzzy_term_meaning,
    law_phrase_meaning, scope, texts_tokens, with_indexed, without_indexed,
};
use crate::query::fulltext::{
    IndexedV, Occurs, TreeV, ValueTokensV, fits_token, has_token, phrase_at, tree_matches,
    within_edits, without_document,
};
use crate::query::plan::{
    ColumnV, SearchableV, added_terms, all_terms, boost_of, boosted, clause_leaves, clause_tree,
    columns_below, field_columns, field_leaves, field_texts, no_boost, path_below, representation,
    scalar_texts, term_leaves, value_texts, values_texts,
};
use crate::query::simple::{ClauseV, ExpansionV, SearchFieldV};
use crate::storage::definition::FieldV;
use crate::storage::document::{DocumentV, path_values};
use crate::text::lowercase;
use vstd::prelude::*;

verus! {

// ---------------------------------------------------------------------------
// Clauses
// ---------------------------------------------------------------------------

/// Whether a document has a token in a field.
pub open spec fn has_word(d: IndexedV, field: int, token: Seq<char>) -> bool {
    exists|i: int, k: int|
        0 <= i < d.texts.len() && d.texts[i].field == field && 0 <= k < d.texts[i].tokens.len()
            && fits_token(token) && (#[trigger] d.texts[i].tokens[k]).token == token
}

/// Whether a document has a token of a text in a field, as the field takes texts apart.
pub open spec fn field_has(d: IndexedV, s: SearchableV, text: Seq<char>) -> bool {
    exists|k: int|
        0 <= k < terms_of(text, s.analyzer).len() && has_word(
            d,
            s.field as int,
            #[trigger] terms_of(text, s.analyzer)[k],
        )
}

/// Whether one of some queries matches.
pub open spec fn some_leaf(leaves: Seq<(Occurs, TreeV)>, d: IndexedV) -> bool {
    exists|i: int| 0 <= i < leaves.len() && tree_matches((#[trigger] leaves[i]).1, d)
}

spec fn all_optional(leaves: Seq<(Occurs, TreeV)>) -> bool {
    forall|i: int| 0 <= i < leaves.len() ==> (#[trigger] leaves[i]).0 is Should
}

proof fn lemma_group(leaves: Seq<(Occurs, TreeV)>, d: IndexedV)
    requires
        all_optional(leaves),
    ensures
        tree_matches(TreeV::Group(leaves), d) == some_leaf(leaves, d),
{
    let t = TreeV::Group(leaves);
    assert(t->Group_0 == leaves);
    assert forall|i: int| 0 <= i < leaves.len() implies !((#[trigger] leaves[i]).0 is Must)
        && !(leaves[i].0 is MustNot) by {
        assert(leaves[i].0 is Should);
    }
    if some_leaf(leaves, d) {
        let i = choose|i: int| 0 <= i < leaves.len() && tree_matches((#[trigger] leaves[i]).1, d);
        assert(leaves[i].0 is Should && tree_matches(leaves[i].1, d));
    }
}

proof fn lemma_joined(a: Seq<(Occurs, TreeV)>, b: Seq<(Occurs, TreeV)>, d: IndexedV)
    ensures
        some_leaf(a + b, d) == (some_leaf(a, d) || some_leaf(b, d)),
        all_optional(a) && all_optional(b) ==> all_optional(a + b),
{
    let c = a + b;
    if some_leaf(a, d) {
        let i = choose|i: int| 0 <= i < a.len() && tree_matches((#[trigger] a[i]).1, d);
        assert(c[i] == a[i]);
    }
    if some_leaf(b, d) {
        let i = choose|i: int| 0 <= i < b.len() && tree_matches((#[trigger] b[i]).1, d);
        assert(c[a.len() as int + i] == b[i]);
    }
    if some_leaf(c, d) {
        let i = choose|i: int| 0 <= i < c.len() && tree_matches((#[trigger] c[i]).1, d);
        if i < a.len() {
            assert(a[i] == c[i]);
        } else {
            assert(b[i - a.len()] == c[i]);
        }
    }
}

proof fn lemma_word(d: IndexedV, field: int, token: Seq<char>, boost: u64)
    ensures
        tree_matches(boosted(TreeV::Term(field, token), boost), d) == has_word(d, field, token),
{
    let tree = TreeV::Term(field, token);
    let wanted = |t: Seq<char>| t == token;
    assert(tree_matches(tree, d) == has_token(d, field, wanted));
    if has_word(d, field, token) {
        let (i, k) = choose|i: int, k: int|
            0 <= i < d.texts.len() && d.texts[i].field == field && 0 <= k < d.texts[i].tokens.len()
                && fits_token(token) && (#[trigger] d.texts[i].tokens[k]).token == token;
        assert(wanted(d.texts[i].tokens[k].token));
    }
    if !no_boost(boost) {
        let t = TreeV::Boost(Box::new(tree), boost);
        assert(tree_matches(t, d) == tree_matches(tree, d));
    }
}

proof fn lemma_term_leaves(tokens: Seq<Seq<char>>, field: u32, boost: u64, d: IndexedV)
    ensures
        all_optional(term_leaves(tokens, field, boost)),
        some_leaf(term_leaves(tokens, field, boost), d) == exists|k: int|
            0 <= k < tokens.len() && has_word(d, field as int, #[trigger] tokens[k]),
{
    let leaves = term_leaves(tokens, field, boost);
    if some_leaf(leaves, d) {
        let i = choose|i: int| 0 <= i < leaves.len() && tree_matches((#[trigger] leaves[i]).1, d);
        lemma_word(d, field as int, tokens[i], boost);
    }
    if exists|k: int| 0 <= k < tokens.len() && has_word(d, field as int, #[trigger] tokens[k]) {
        let k = choose|k: int|
            0 <= k < tokens.len() && has_word(d, field as int, #[trigger] tokens[k]);
        lemma_word(d, field as int, tokens[k], boost);
        assert(tree_matches(leaves[k].1, d));
    }
}

proof fn lemma_all_terms(list: Seq<Seq<char>>, s: SearchableV, d: IndexedV)
    ensures
        (exists|k: int|
            0 <= k < all_terms(list, s.analyzer).len() && has_word(
                d,
                s.field as int,
                #[trigger] all_terms(list, s.analyzer)[k],
            )) == exists|m: int| 0 <= m < list.len() && field_has(d, s, #[trigger] list[m]),
    decreases list.len(),
{
    if list.len() > 0 {
        let rest = list.drop_last();
        let before = all_terms(rest, s.analyzer);
        let own = terms_of(list.last(), s.analyzer);
        let all = all_terms(list, s.analyzer);
        lemma_all_terms(rest, s, d);
        if exists|k: int| 0 <= k < all.len() && has_word(d, s.field as int, #[trigger] all[k]) {
            let k = choose|k: int|
                0 <= k < all.len() && has_word(d, s.field as int, #[trigger] all[k]);
            if k < before.len() {
                assert(before[k] == all[k]);
                let m = choose|m: int| 0 <= m < rest.len() && field_has(d, s, #[trigger] rest[m]);
                assert(list[m] == rest[m]);
            } else {
                assert(own[k - before.len()] == all[k]);
                assert(field_has(d, s, list[list.len() - 1]));
            }
        }
        if exists|m: int| 0 <= m < list.len() && field_has(d, s, #[trigger] list[m]) {
            let m = choose|m: int| 0 <= m < list.len() && field_has(d, s, #[trigger] list[m]);
            if m < rest.len() {
                assert(rest[m] == list[m]);
                let k = choose|k: int|
                    0 <= k < before.len() && has_word(d, s.field as int, #[trigger] before[k]);
                assert(all[k] == before[k]);
            } else {
                let k = choose|k: int|
                    0 <= k < own.len() && has_word(d, s.field as int, #[trigger] own[k]);
                assert(all[before.len() as int + k] == own[k]);
            }
        }
    }
}

/// What a clause asks of one field.
pub open spec fn clause_holds(
    clause: ClauseV,
    s: SearchableV,
    added: Seq<Seq<char>>,
    d: IndexedV,
) -> bool {
    match clause {
        ClauseV::Term(term) => field_has(d, s, term) || exists|m: int|
            0 <= m < added.len() && field_has(d, s, #[trigger] added[m]),
        ClauseV::FuzzyTerm { term, distance } => exists|i: int, k: int|
            0 <= i < d.texts.len() && d.texts[i].field == s.field && 0 <= k
                < d.texts[i].tokens.len() && fits_token(d.texts[i].tokens[k].token)
                && within_edits(
                lowercase(term),
                (#[trigger] d.texts[i].tokens[k]).token,
                distance as int,
            ),
        ClauseV::Phrase(phrase) => if terms_of(phrase, s.analyzer).len() < 2 {
            field_has(d, s, phrase)
        } else {
            exists|i: int, start: int|
                0 <= i < d.texts.len() && (#[trigger] d.texts[i]).field == s.field
                    && #[trigger] phrase_at(
                    d.texts[i].tokens,
                    terms_of(phrase, s.analyzer),
                    start,
                )
        },
    }
}

proof fn lemma_field_leaves(
    clause: ClauseV,
    s: SearchableV,
    boost: u64,
    synonyms: Seq<ExpansionV>,
    d: IndexedV,
)
    ensures
        all_optional(field_leaves(clause, s, boost, synonyms)),
        some_leaf(field_leaves(clause, s, boost, synonyms), d) == clause_holds(
            clause,
            s,
            match clause {
                ClauseV::Term(term) => added_terms(synonyms, term),
                _ => seq![],
            },
            d,
        ),
{
    let leaves = field_leaves(clause, s, boost, synonyms);
    match clause {
        ClauseV::Term(term) => {
            let added = added_terms(synonyms, term);
            let own = terms_of(term, s.analyzer);
            let more = all_terms(added, s.analyzer);
            lemma_term_leaves(own, s.field, boost, d);
            lemma_term_leaves(more, s.field, boost, d);
            lemma_all_terms(added, s, d);
            assert(leaves =~= term_leaves(own, s.field, boost) + term_leaves(
                more,
                s.field,
                boost,
            ));
            lemma_joined(
                term_leaves(own, s.field, boost),
                term_leaves(more, s.field, boost),
                d,
            );
        },
        ClauseV::FuzzyTerm { term, distance } => {
            law_fuzzy_term_meaning(term, distance, s, boost, synonyms, d);
            assert(some_leaf(leaves, d) == tree_matches(leaves[0].1, d));
        },
        ClauseV::Phrase(phrase) => {
            let tokens = terms_of(phrase, s.analyzer);
            if tokens.len() < 2 {
                lemma_term_leaves(tokens, s.field, boost, d);
            } else {
                law_phrase_meaning(phrase, s, boost, synonyms, d);
                assert(some_leaf(leaves, d) == tree_matches(leaves[0].1, d));
            }
        },
    }
}

proof fn lemma_clause_leaves(
    clause: ClauseV,
    fields: Seq<SearchableV>,
    boosts: Seq<SearchFieldV>,
    synonyms: Seq<ExpansionV>,
    added: Seq<Seq<char>>,
    d: IndexedV,
)
    requires
        added == (match clause {
            ClauseV::Term(term) => added_terms(synonyms, term),
            _ => seq![],
        }),
    ensures
        all_optional(clause_leaves(clause, fields, boosts, synonyms)),
        some_leaf(clause_leaves(clause, fields, boosts, synonyms), d) == exists|f: int|
            0 <= f < fields.len() && clause_holds(clause, #[trigger] fields[f], added, d),
    decreases fields.len(),
{
    if fields.len() > 0 {
        let rest = fields.drop_last();
        let s = fields.last();
        let boost = boost_of(boosts, s.name);
        lemma_clause_leaves(clause, rest, boosts, synonyms, added, d);
        lemma_field_leaves(clause, s, boost, synonyms, d);
        lemma_joined(
            clause_leaves(clause, rest, boosts, synonyms),
            field_leaves(clause, s, boost, synonyms),
            d,
        );
        if exists|f: int|
            0 <= f < fields.len() && clause_holds(clause, #[trigger] fields[f], added, d) {
            let f = choose|f: int|
                0 <= f < fields.len() && clause_holds(clause, #[trigger] fields[f], added, d);
            if f < rest.len() {
                assert(rest[f] == fields[f]);
            }
        }
        if exists|f: int|
            0 <= f < rest.len() && clause_holds(clause, #[trigger] rest[f], added, d) {
            let f = choose|f: int|
                0 <= f < rest.len() && clause_holds(clause, #[trigger] rest[f], added, d);
            assert(fields[f] == rest[f]);
        }
        if clause_holds(clause, s, added, d) {
            assert(fields[fields.len() - 1] == s);
        }
    }
}

/// A clause matches a document exactly where one of the fields holds what it asks for:
/// a token of the term or of one of its synonyms, a token near a fuzzy term, or the
/// tokens of a phrase one behind the other. A fuzzy term without characters matches
/// nothing.
pub proof fn law_clause_meaning(
    clause: ClauseV,
    fields: Seq<SearchableV>,
    boosts: Seq<SearchFieldV>,
    synonyms: Seq<ExpansionV>,
    added: Seq<Seq<char>>,
    d: IndexedV,
)
    requires
        added == (match clause {
            ClauseV::Term(term) => added_terms(synonyms, term),
            _ => seq![],
        }),
        clause matches ClauseV::FuzzyTerm { term, distance } ==> lowercase(term).len() > 0,
    ensures
        tree_matches(clause_tree(clause, fields, boosts, synonyms), d) <==> exists|f: int|
            0 <= f < fields.len() && clause_holds(clause, #[trigger] fields[f], added, d),
{
    let leaves = clause_leaves(clause, fields, boosts, synonyms);
    lemma_clause_leaves(clause, fields, boosts, synonyms, added, d);
    lemma_group(leaves, d);
}

/// The synonyms of a term are those that the first rule for it adds; without a rule
/// there are none.
pub proof fn law_first_rule_adds_terms(synonyms: Seq<ExpansionV>, term: Seq<char>, i: int)
    ensures
        0 <= i < synonyms.len() && synonyms[i].term == term && (forall|k: int|
            0 <= k < i ==> (#[trigger] synonyms[k]).term != term) ==> added_terms(synonyms, term)
            == synonyms[i].added,
        (forall|k: int| 0 <= k < synonyms.len() ==> (#[trigger] synonyms[k]).term != term)
            ==> added_terms(synonyms, term).len() == 0,
    decreases synonyms.len(),
{
    if synonyms.len() > 0 && synonyms[0].term != term {
        let rest = synonyms.drop_first();
        law_first_rule_adds_terms(rest, term, i - 1);
        assert(forall|k: int| 0 <= k < rest.len() ==> #[trigger] rest[k] == synonyms[k + 1]);
    }
}

// ---------------------------------------------------------------------------
// Fields
// ---------------------------------------------------------------------------

/// A search is put to each searchable field that is named, in order, and to no other;
/// without names it is put to all.
pub proof fn law_scope(searchable: Seq<SearchableV>, names: Seq<Seq<char>>, s: SearchableV)
    ensures
        scope(searchable, Some(names)).contains(s) <==> searchable.contains(s) && names.contains(
            s.name,
        ),
        scope(searchable, None) == searchable,
    decreases searchable.len(),
{
    if searchable.len() > 0 {
        let rest = searchable.drop_last();
        let last = searchable.last();
        let before = fields_in(rest, names);
        let all = fields_in(searchable, names);
        law_scope(rest, names, s);
        if searchable.contains(s) && names.contains(s.name) {
            if s == last {
                assert(all[before.len() as int] == s);
            } else {
                let i = choose|i: int| 0 <= i < searchable.len() && searchable[i] == s;
                assert(rest[i] == s);
                let j = choose|j: int| 0 <= j < before.len() && before[j] == s;
                assert(all[j] == s);
            }
        }
        if all.contains(s) {
            let j = choose|j: int| 0 <= j < all.len() && all[j] == s;
            if j < before.len() {
                assert(before[j] == s);
                let i = choose|i: int| 0 <= i < rest.len() && rest[i] == s;
                assert(searchable[i] == s);
            } else {
                assert(searchable[searchable.len() - 1] == s);
            }
        }
    }
}

/// The searchable columns of a schema are those of each of its fields: a plain field
/// that is searchable and no vector is one, under its path and with its analyzer; the
/// fields inside a complex field are, under its path; there are no others.
pub proof fn law_searchable_columns(
    fields: Seq<FieldV>,
    prefix: Seq<char>,
    c: ColumnV,
    f: FieldV,
)
    ensures
        columns_below(fields, prefix).contains(c) <==> exists|i: int|
            0 <= i < fields.len() && field_columns(#[trigger] fields[i], prefix).contains(c),
        ({
            let path = if prefix.len() == 0 {
                f.name
            } else {
                prefix.push('/') + f.name
            };
            field_columns(f, prefix).contains(c) <==> if f.field_type.complex() {
                columns_below(f.subfields, path).contains(c)
            } else {
                f.searchable && !f.vector() && c == ColumnV { path, analyzer: f.analyzer }
            }
        }),
    decreases fields.len(),
{
    reveal_strlit("/");
    assert(prefix + "/"@ =~= prefix.push('/'));
    let path = if prefix.len() == 0 {
        f.name
    } else {
        prefix.push('/') + f.name
    };
    assert(path == path_below(prefix, f.name));
    let column = ColumnV { path, analyzer: f.analyzer };
    if !f.field_type.complex() && f.searchable && !f.vector() {
        assert(field_columns(f, prefix) == seq![column]);
        assert(seq![column][0] == column);
    }
    if fields.len() > 0 {
        let rest = fields.drop_last();
        let before = columns_below(rest, prefix);
        let own = field_columns(fields.last(), prefix);
        let all = columns_below(fields, prefix);
        law_searchable_columns(rest, prefix, c, f);
        if all.contains(c) {
            let j = choose|j: int| 0 <= j < all.len() && all[j] == c;
            if j < before.len() {
                assert(before[j] == c);
                let i = choose|i: int|
                    0 <= i < rest.len() && field_columns(#[trigger] rest[i], prefix).contains(c);
                assert(fields[i] == rest[i]);
            } else {
                assert(own[j - before.len()] == c);
                assert(field_columns(fields[fields.len() - 1], prefix).contains(c));
            }
        }
        if exists|i: int|
            0 <= i < fields.len() && field_columns(#[trigger] fields[i], prefix).contains(c) {
            let i = choose|i: int|
                0 <= i < fields.len() && field_columns(#[trigger] fields[i], prefix).contains(c);
            if i < rest.len() {
                assert(rest[i] == fields[i]);
                let j = choose|j: int| 0 <= j < before.len() && before[j] == c;
                assert(all[j] == c);
            } else {
                let j = choose|j: int| 0 <= j < own.len() && own[j] == c;
                assert(all[before.len() as int + j] == c);
            }
        }
    }
}

// ---------------------------------------------------------------------------
// Documents
// ---------------------------------------------------------------------------

proof fn lemma_scalar_texts(items: Seq<JsonV>, text: Seq<char>)
    ensures
        scalar_texts(items).contains(text) <==> exists|i: int|
            0 <= i < items.len() && representation(#[trigger] items[i]) == Some(text),
    decreases items.len(),
{
    if items.len() > 0 {
        let rest = items.drop_last();
        let before = scalar_texts(rest);
        let all = scalar_texts(items);
        lemma_scalar_texts(rest, text);
        if all.contains(text) {
            let j = choose|j: int| 0 <= j < all.len() && all[j] == text;
            if j < before.len() {
                assert(before[j] == text);
                let i = choose|i: int|
                    0 <= i < rest.len() && representation(#[trigger] rest[i]) == Some(text);
                assert(items[i] == rest[i]);
            } else {
                assert(representation(items[items.len() - 1]) == Some(text));
            }
        }
        if exists|i: int|
            0 <= i < items.len() && representation(#[trigger] items[i]) == Some(text) {
            let i = choose|i: int|
                0 <= i < items.len() && representation(#[trigger] items[i]) == Some(text);
            if i < rest.len() {
                assert(rest[i] == items[i]);
                let j = choose|j: int| 0 <= j < before.len() && before[j] == text;
                assert(all[j] == text);
            } else {
                assert(all[before.len() as int] == text);
            }
        }
    }
}

/// Whether a value says a text: a text is said as it is, a boolean by its name, and a
/// collection says what its items say.
pub open spec fn says(v: JsonV, text: Seq<char>) -> bool {
    match v {
        JsonV::String(s) => s == text,
        JsonV::Bool(true) => text == "true"@,
        JsonV::Bool(false) => text == "false"@,
        JsonV::Number(n) => n.text_spec() == text,
        JsonV::Array(items) => exists|i: int|
            0 <= i < items.len() && !(items[i] is Array) && item_says(#[trigger] items[i], text),
        _ => false,
    }
}

/// Whether an item of a collection says a text.
pub open spec fn item_says(v: JsonV, text: Seq<char>) -> bool {
    match v {
        JsonV::String(s) => s == text,
        JsonV::Bool(true) => text == "true"@,
        JsonV::Bool(false) => text == "false"@,
        JsonV::Number(n) => n.text_spec() == text,
        _ => false,
    }
}

proof fn lemma_value_texts(v: JsonV, text: Seq<char>)
    ensures
        value_texts(v).contains(text) <==> says(v, text),
{
    match v {
        JsonV::Array(items) => {
            lemma_scalar_texts(items, text);
            if says(v, text) {
                let i = choose|i: int|
                    0 <= i < items.len() && !(items[i] is Array) && item_says(
                        #[trigger] items[i],
                        text,
                    );
                assert(representation(items[i]) == Some(text));
            }
            if value_texts(v).contains(text) {
                let i = choose|i: int|
                    0 <= i < items.len() && representation(#[trigger] items[i]) == Some(text);
                assert(item_says(items[i], text));
            }
        },
        _ => {
            lemma_scalar_texts(seq![v], text);
            assert(seq![v][0] == v);
        },
    }
}

/// The texts of a field are those that its values say: all of them, and no others.
pub proof fn law_field_texts(d: DocumentV, path: Seq<char>, text: Seq<char>)
    ensures
        field_texts(d, path).contains(text) <==> exists|i: int|
            0 <= i < path_values(d.fields, path).len() && says(
                #[trigger] path_values(d.fields, path)[i],
                text,
            ),
{
    lemma_values_texts(path_values(d.fields, path), text);
}

proof fn lemma_values_texts(v: Seq<JsonV>, text: Seq<char>)
    ensures
        values_texts(v).contains(text) <==> exists|i: int|
            0 <= i < v.len() && says(#[trigger] v[i], text),
    decreases v.len(),
{
    if v.len() > 0 {
        let rest = v.drop_last();
        let before = values_texts(rest);
        let own = value_texts(v.last());
        let all = values_texts(v);
        lemma_values_texts(rest, text);
        lemma_value_texts(v.last(), text);
        if all.contains(text) {
            let j = choose|j: int| 0 <= j < all.len() && all[j] == text;
            if j < before.len() {
                assert(before[j] == text);
                let i = choose|i: int| 0 <= i < rest.len() && says(#[trigger] rest[i], text);
                assert(v[i] == rest[i]);
            } else {
                assert(own[j - before.len()] == text);
                assert(says(v[v.len() - 1], text));
            }
        }
        if exists|i: int| 0 <= i < v.len() && says(#[trigger] v[i], text) {
            let i = choose|i: int| 0 <= i < v.len() && says(#[trigger] v[i], text);
            if i < rest.len() {
                assert(rest[i] == v[i]);
                let j = choose|j: int| 0 <= j < before.len() && before[j] == text;
                assert(all[j] == text);
            } else {
                let j = choose|j: int| 0 <= j < own.len() && own[j] == text;
                assert(all[before.len() as int + j] == text);
            }
        }
    }
}

/// A document is indexed by the tokens of each text of each searchable field, and by no
/// others.
pub proof fn law_every_text_is_indexed(
    d: DocumentV,
    searchable: Seq<SearchableV>,
    x: ValueTokensV,
)
    ensures
        indexed(d, searchable).key == d.key,
        indexed(d, searchable).texts.contains(x) <==> exists|i: int, k: int|
            0 <= i < searchable.len() && 0 <= k < field_texts(d, searchable[i].name).len() && x
                == (ValueTokensV {
                field: searchable[i].field as int,
                tokens: pipeline_tokens(
                    #[trigger] field_texts(d, searchable[i].name)[k],
                    tokenizer_name(searchable[i].analyzer),
                ),
            }),
    decreases searchable.len(),
{
    if searchable.len() > 0 {
        let rest = searchable.drop_last();
        let s = searchable.last();
        let before = document_tokens(d, rest);
        let list = field_texts(d, s.name);
        let own = texts_tokens(list, s);
        let all = document_tokens(d, searchable);
        law_every_text_is_indexed(d, rest, x);
        if all.contains(x) {
            let j = choose|j: int| 0 <= j < all.len() && all[j] == x;
            if j < before.len() {
                assert(before[j] == x);
                assert(indexed(d, rest).texts.contains(x));
                let (i, k) = choose|i: int, k: int|
                    0 <= i < rest.len() && 0 <= k < field_texts(d, rest[i].name).len() && x == (
                    ValueTokensV {
                        field: rest[i].field as int,
                        tokens: pipeline_tokens(
                            #[trigger] field_texts(d, rest[i].name)[k],
                            tokenizer_name(rest[i].analyzer),
                        ),
                    });
                assert(searchable[i] == rest[i]);
                assert(field_texts(d, searchable[i].name)[k] == field_texts(d, rest[i].name)[k]);
            } else {
                assert(own[j - before.len()] == x);
                let n = searchable.len() - 1;
                assert(searchable[n] == s);
                assert(field_texts(d, searchable[n].name)[j - before.len()] == list[j
                    - before.len()]);
            }
        }
        if exists|i: int, k: int|
            0 <= i < searchable.len() && 0 <= k < field_texts(d, searchable[i].name).len() && x
                == (ValueTokensV {
                field: searchable[i].field as int,
                tokens: pipeline_tokens(
                    #[trigger] field_texts(d, searchable[i].name)[k],
                    tokenizer_name(searchable[i].analyzer),
                ),
            }) {
            let (i, k) = choose|i: int, k: int|
                0 <= i < searchable.len() && 0 <= k < field_texts(d, searchable[i].name).len() && x
                    == (ValueTokensV {
                    field: searchable[i].field as int,
                    tokens: pipeline_tokens(
                        #[trigger] field_texts(d, searchable[i].name)[k],
                        tokenizer_name(searchable[i].analyzer),
                    ),
                });
            if i < rest.len() {
                assert(rest[i] == searchable[i]);
                assert(field_texts(d, rest[i].name)[k] == field_texts(d, searchable[i].name)[k]);
                assert(indexed(d, rest).texts.contains(x));
                let j = choose|j: int| 0 <= j < before.len() && before[j] == x;
                assert(all[j] == x);
            } else {
                assert(own[k] == x);
                assert(all[before.len() as int + k] == x);
            }
        }
    }
}

/// Documents are indexed one after the other: the last is there, and those of other
/// keys are as they were before it. Deleting a key takes away its document, and no other.
pub proof fn law_indexing_in_turn(
    docs: Seq<IndexedV>,
    new: Seq<DocumentV>,
    d: DocumentV,
    keys: Seq<Seq<char>>,
    key: Seq<char>,
    searchable: Seq<SearchableV>,
    x: IndexedV,
)
    requires
        fits_token(d.key),
        fits_token(key),
    ensures
        with_indexed(docs, seq![], searchable) == docs,
        with_indexed(docs, new.push(d), searchable).contains(x) <==> (if x.key == d.key {
            x == indexed(d, searchable)
        } else {
            with_indexed(docs, new, searchable).contains(x)
        }),
        without_indexed(docs, seq![]) == docs,
        without_indexed(docs, keys.push(key)).contains(x) <==> x.key != key && without_indexed(
            docs,
            keys,
        ).contains(x),
{
    assert(new.push(d).drop_last() =~= new);
    assert(keys.push(key).drop_last() =~= keys);
    let before = with_indexed(docs, new, searchable);
    let rest = without_document(before, d.key);
    let after = with_indexed(docs, new.push(d), searchable);
    law_deleted_document_is_gone(before, d.key);
    assert(after == rest.push(indexed(d, searchable)));
    assert(after[rest.len() as int] == indexed(d, searchable));
    if after.contains(x) {
        let j = choose|j: int| 0 <= j < after.len() && after[j] == x;
        if j < rest.len() {
            assert(rest[j] == x);
            assert(rest.contains(x));
            assert(before.contains(x));
        }
    }
    if x.key != d.key && before.contains(x) {
        assert(rest.contains(x));
        let j = choose|j: int| 0 <= j < rest.len() && rest[j] == x;
        assert(after[j] == x);
    }
    let kept = without_indexed(docs, keys);
    let left = without_document(kept, key);
    law_deleted_document_is_gone(kept, key);
    if left.contains(x) {
        let j = choose|j: int| 0 <= j < left.len() && left[j] == x;
        assert(left[j].key != key);
        assert(kept.contains(x));
    }
    if kept.contains(x) && x.key != key {
        assert(left.contains(x));
    }
}

} // verus!
