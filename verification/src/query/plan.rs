//! Searchable fields, and how a full-text query is put to the index.
use crate::json::{Json, JsonV, ONE_RANK, group_json, ref_values, values};
use crate::query::analyzers::{analyze_with, opt_str, terms_of};
use crate::query::fulltext::{
    Occurs, QueryClauses, TreeV, boost_last, clauses_of, has_clauses, no_clauses, push_all,
    push_empty, push_fuzzy, push_group, push_phrase, push_term,
};
use crate::query::simple::{
    Clause, ClauseV, Expansion, ExpansionV, FullTextQuery, FullTextQueryV, SearchField,
    SearchFieldV, SearchMode, expansion_views,
};
use crate::storage::definition::{FieldDefinition, FieldV, field_views, group_fields};
use crate::storage::document::{Document, DocumentV, path_values};
use crate::storage::keyed::{KeyedList, keyed_find};
use crate::text::{
    cat3, clone_opt_text, lemma_texts_push, lowercase, opt_text, same_text, texts, to_lowercase,
};
use vstd::prelude::*;

verus! {

/// A searchable field: its path, its place in the index, and its declared
/// analyzer name (`None` for the English default).
#[derive(Debug, PartialEq, Eq)]
pub struct SearchableField {
    pub name: String,
    pub field: u32,
    pub analyzer: Option<String>,
}

/// The mathematical value of a [`SearchableField`].
pub struct SearchableV {
    pub name: Seq<char>,
    pub field: u32,
    pub analyzer: Option<Seq<char>>,
}

impl View for SearchableField {
    type V = SearchableV;

    open spec fn view(&self) -> SearchableV {
        SearchableV { name: self.name@, field: self.field, analyzer: opt_text(self.analyzer) }
    }
}

pub open spec fn searchable_views(v: Seq<SearchableField>) -> Seq<SearchableV> {
    v.map_values(|s: SearchableField| s@)
}

pub broadcast proof fn lemma_searchable_views_push(v: Seq<SearchableField>, s: SearchableField)
    ensures
        #[trigger] searchable_views(v.push(s)) == searchable_views(v).push(s@),
{
    assert(searchable_views(v.push(s)) =~= searchable_views(v).push(s@));
}

impl SearchableField {
    pub fn duplicate(&self) -> (r: SearchableField)
        ensures
            r@ == self@,
    {
        SearchableField {
            name: self.name.clone(),
            field: self.field,
            analyzer: clone_opt_text(&self.analyzer),
        }
    }
}

// ---------------------------------------------------------------------------
// The searchable fields of a schema
// ---------------------------------------------------------------------------

/// A searchable field of a schema: its path, and its analyzer name.
pub struct ColumnV {
    pub path: Seq<char>,
    pub analyzer: Option<Seq<char>>,
}

/// A searchable field of a schema: its path, and its analyzer name.
pub struct Column {
    pub path: String,
    pub analyzer: Option<String>,
}

impl View for Column {
    type V = ColumnV;

    open spec fn view(&self) -> ColumnV {
        ColumnV { path: self.path@, analyzer: opt_text(self.analyzer) }
    }
}

pub open spec fn column_views(v: Seq<Column>) -> Seq<ColumnV> {
    v.map_values(|c: Column| c@)
}

pub broadcast proof fn lemma_column_views_push(v: Seq<Column>, c: Column)
    ensures
        #[trigger] column_views(v.push(c)) == column_views(v).push(c@),
{
    assert(column_views(v.push(c)) =~= column_views(v).push(c@));
}

/// The path of a field below a prefix.
pub open spec fn path_below(prefix: Seq<char>, name: Seq<char>) -> Seq<char> {
    if prefix.len() == 0 {
        name
    } else {
        prefix + "/"@ + name
    }
}

/// The searchable fields that a field contributes: its searchable subfields
/// under its path where it is complex, or else itself. Vector fields are not
/// full-text indexed.
pub open spec fn field_columns(f: FieldV, prefix: Seq<char>) -> Seq<ColumnV>
    decreases f,
{
    let path = path_below(prefix, f.name);
    if f.field_type.complex() {
        columns_below(f.subfields, path)
    } else if f.searchable && !f.vector() {
        seq![ColumnV { path, analyzer: f.analyzer }]
    } else {
        seq![]
    }
}

pub open spec fn columns_below(fields: Seq<FieldV>, prefix: Seq<char>) -> Seq<ColumnV>
    decreases fields,
{
    if fields.len() == 0 {
        seq![]
    } else {
        columns_below(fields.drop_last(), prefix) + field_columns(fields.last(), prefix)
    }
}

fn push_field_columns(f: &FieldDefinition, prefix: &str, out: &mut Vec<Column>)
    ensures
        column_views(final(out)@) == column_views(old(out)@) + field_columns(f@, prefix@),
    decreases f, 0nat,
{
    broadcast use {group_fields, lemma_column_views_push};

    let ghost start = column_views(out@);
    let path = if prefix.is_empty() {
        f.name.clone()
    } else {
        cat3(prefix, "/", f.name.as_str())
    };
    if f.is_complex_type() {
        collect_searchable(&f.subfields, path.as_str(), out);
    } else if f.searchable && !f.is_vector_field() {
        let c = Column { path, analyzer: clone_opt_text(&f.analyzer) };
        out.push(c);
        assert(column_views(out@) == start.push(c@));
        assert(start.push(c@) =~= start + seq![c@]);
    } else {
        assert(start + Seq::<ColumnV>::empty() =~= start);
    }
}

/// Collects the searchable fields of a schema. Searchable subfields of complex
/// fields go by their path (`Address/City`).
fn collect_searchable(fields: &Vec<FieldDefinition>, prefix: &str, out: &mut Vec<Column>)
    ensures
        column_views(final(out)@) == column_views(old(out)@) + columns_below(
            field_views(fields@),
            prefix@,
        ),
    decreases fields, 1nat,
{
    let ghost start = column_views(out@);
    let ghost all = field_views(fields@);
    let mut i: usize = 0;
    assert(start + columns_below(all.take(0), prefix@) =~= start);
    while i < fields.len()
        invariant
            all == field_views(fields@),
            i <= fields@.len(),
            column_views(out@) == start + columns_below(all.take(i as int), prefix@),
        decreases fields@.len() - i,
    {
        assert(all.take(i + 1).drop_last() =~= all.take(i as int));
        assert(all[i as int] == fields@[i as int]@);
        push_field_columns(&fields[i], prefix, out);
        i += 1;
        assert(column_views(out@) =~= start + columns_below(all.take(i as int), prefix@));
    }
    assert(all.take(i as int) =~= all);
}

/// The searchable fields of a schema.
pub fn searchable_columns(fields: &Vec<FieldDefinition>) -> (r: Vec<Column>)
    ensures
        column_views(r@) == columns_below(field_views(fields@), seq![]),
{
    let mut out: Vec<Column> = Vec::new();
    collect_searchable(fields, "", &mut out);
    proof {
        reveal_strlit("");
        assert(""@ =~= seq![]);
        assert(column_views(out@) =~= columns_below(field_views(fields@), seq![]));
    }
    out
}

// ---------------------------------------------------------------------------
// Documents
// ---------------------------------------------------------------------------

/// The full-text representation of a scalar value: strings as they are, numbers
/// in their shortest round-trip form, booleans as `true` / `false`.
pub open spec fn representation(v: JsonV) -> Option<Seq<char>> {
    match v {
        JsonV::String(s) => Some(s),
        JsonV::Number(n) => Some(n.text_spec()),
        JsonV::Bool(b) => Some(
            if b {
                "true"@
            } else {
                "false"@
            },
        ),
        _ => None,
    }
}

/// The full-text representation of a scalar document value. `null`, objects,
/// and arrays have none.
pub fn text_representation(v: &Json) -> (r: Option<String>)
    ensures
        opt_text(r) == representation(v@),
{
    match v {
        Json::String(s) => Some(s.clone()),
        Json::Number(n) => Some(n.text()),
        Json::Bool(b) => if *b {
            Some("true".to_owned())
        } else {
            Some("false".to_owned())
        },
        _ => None,
    }
}

/// The texts of values: those of the items of an array, and those of scalars.
pub open spec fn value_texts(v: JsonV) -> Seq<Seq<char>> {
    match v {
        JsonV::Array(items) => scalar_texts(items),
        _ => scalar_texts(seq![v]),
    }
}

pub open spec fn scalar_texts(items: Seq<JsonV>) -> Seq<Seq<char>>
    decreases items.len(),
{
    if items.len() == 0 {
        seq![]
    } else {
        match representation(items.last()) {
            Some(s) => scalar_texts(items.drop_last()).push(s),
            None => scalar_texts(items.drop_last()),
        }
    }
}

/// The texts of several values.
pub open spec fn values_texts(v: Seq<JsonV>) -> Seq<Seq<char>>
    decreases v.len(),
{
    if v.len() == 0 {
        seq![]
    } else {
        values_texts(v.drop_last()) + value_texts(v.last())
    }
}

/// The texts that a document has in a field.
pub open spec fn field_texts(d: DocumentV, path: Seq<char>) -> Seq<Seq<char>> {
    values_texts(path_values(d.fields, path))
}

fn push_value_texts(v: &Json, out: &mut Vec<String>)
    ensures
        texts(final(out)@) == texts(old(out)@) + value_texts(v@),
{
    broadcast use {group_json, lemma_texts_push};

    let ghost start = texts(out@);
    match v {
        Json::Array(items) => {
            let ghost all = values(items@);
            let mut i: usize = 0;
            assert(start + scalar_texts(all.take(0)) =~= start);
            while i < items.len()
                invariant
                    all == values(items@),
                    i <= items@.len(),
                    texts(out@) == start + scalar_texts(all.take(i as int)),
                decreases items@.len() - i,
            {
                broadcast use {group_json, lemma_texts_push};

                let ghost before = texts(out@);
                assert(all.take(i + 1).drop_last() =~= all.take(i as int));
                assert(all[i as int] == items@[i as int]@);
                if let Some(s) = text_representation(&items[i]) {
                    out.push(s);
                    assert(texts(out@) == before.push(s@));
                }
                i += 1;
                assert(texts(out@) =~= start + scalar_texts(all.take(i as int)));
            }
            assert(all.take(i as int) =~= all);
        },
        _ => {
            assert(seq![v@].drop_last() =~= Seq::<JsonV>::empty());
            assert(scalar_texts(Seq::<JsonV>::empty()) =~= seq![]);
            if let Some(s) = text_representation(v) {
                out.push(s);
                assert(texts(out@) == start.push(s@));
            }
            assert(texts(out@) =~= start + value_texts(v@));
        },
    }
}

/// The texts that a document has in a field. A plain collection field leads to
/// one array, each element of which counts.
pub fn document_texts(d: &Document, path: &str) -> (r: Vec<String>)
    ensures
        texts(r@) == field_texts(d@, path@),
{
    let found = d.resolve_path(path);
    let ghost all = ref_values(found@);
    let mut out: Vec<String> = Vec::new();
    let mut i: usize = 0;
    assert(texts(out@) =~= values_texts(all.take(0)));
    while i < found.len()
        invariant
            all == ref_values(found@),
            i <= found@.len(),
            texts(out@) == values_texts(all.take(i as int)),
        decreases found@.len() - i,
    {
        assert(all.take(i + 1).drop_last() =~= all.take(i as int));
        assert(all[i as int] == found@[i as int]@);
        push_value_texts(found[i], &mut out);
        i += 1;
    }
    assert(all.take(i as int) =~= all);
    out
}

// ---------------------------------------------------------------------------
// Clauses
// ---------------------------------------------------------------------------

/// Whether a boost changes no score: it differs from one by less than the
/// precision of a score.
pub open spec fn no_boost(rank: u64) -> bool {
    0xbfef_ffff_c000_0000 < rank < 0xbff0_0000_2000_0000
}

/// The score boost for a field, one when no weight was given.
pub open spec fn boost_of(boosts: Seq<SearchFieldV>, name: Seq<char>) -> u64 {
    match keyed_find::<SearchField>(boosts, name) {
        Some(f) => f.boost,
        None => ONE_RANK,
    }
}

/// A query for a field, boosted where the field carries a weight.
pub open spec fn boosted(t: TreeV, boost: u64) -> TreeV {
    if no_boost(boost) {
        t
    } else {
        TreeV::Boost(Box::new(t), boost)
    }
}

/// The terms that synonyms add to a term.
pub open spec fn added_terms(synonyms: Seq<ExpansionV>, term: Seq<char>) -> Seq<Seq<char>>
    decreases synonyms.len(),
{
    if synonyms.len() == 0 {
        seq![]
    } else if synonyms[0].term == term {
        synonyms[0].added
    } else {
        added_terms(synonyms.drop_first(), term)
    }
}

/// The tokens of several terms.
pub open spec fn all_terms(list: Seq<Seq<char>>, analyzer: Option<Seq<char>>) -> Seq<Seq<char>>
    decreases list.len(),
{
    if list.len() == 0 {
        seq![]
    } else {
        all_terms(list.drop_last(), analyzer) + terms_of(list.last(), analyzer)
    }
}

/// A query for each of some tokens of a field.
pub open spec fn term_leaves(tokens: Seq<Seq<char>>, field: u32, boost: u64) -> Seq<
    (Occurs, TreeV),
> {
    tokens.map_values(
        |t: Seq<char>| (Occurs::Should, boosted(TreeV::Term(field as int, t), boost)),
    )
}

/// What a clause asks of one field. A term asks for each of its tokens and of
/// those of its synonyms; a fuzzy term for a token near its lowercase form,
/// which is not analyzed; a phrase for its tokens next to each other. Texts are
/// analyzed with the field's own analyzer.
pub open spec fn field_leaves(
    clause: ClauseV,
    s: SearchableV,
    boost: u64,
    synonyms: Seq<ExpansionV>,
) -> Seq<(Occurs, TreeV)> {
    match clause {
        ClauseV::Term(term) => term_leaves(
            terms_of(term, s.analyzer) + all_terms(added_terms(synonyms, term), s.analyzer),
            s.field,
            boost,
        ),
        ClauseV::FuzzyTerm { term, distance } => seq![
            (
                Occurs::Should,
                boosted(TreeV::Fuzzy(s.field as int, lowercase(term), distance), boost),
            ),
        ],
        ClauseV::Phrase(phrase) => {
            let tokens = terms_of(phrase, s.analyzer);
            if tokens.len() < 2 {
                term_leaves(tokens, s.field, boost)
            } else {
                seq![(Occurs::Should, boosted(TreeV::Phrase(s.field as int, tokens), boost))]
            }
        },
    }
}

/// What a clause asks of several fields.
pub open spec fn clause_leaves(
    clause: ClauseV,
    fields: Seq<SearchableV>,
    boosts: Seq<SearchFieldV>,
    synonyms: Seq<ExpansionV>,
) -> Seq<(Occurs, TreeV)>
    decreases fields.len(),
{
    if fields.len() == 0 {
        seq![]
    } else {
        clause_leaves(clause, fields.drop_last(), boosts, synonyms) + field_leaves(
            clause,
            fields.last(),
            boost_of(boosts, fields.last().name),
            synonyms,
        )
    }
}

/// The query of a clause: what it asks of any of the fields. A clause that asks
/// nothing, such as one of stopwords alone, matches nothing.
pub open spec fn clause_tree(
    clause: ClauseV,
    fields: Seq<SearchableV>,
    boosts: Seq<SearchFieldV>,
    synonyms: Seq<ExpansionV>,
) -> TreeV {
    let leaves = clause_leaves(clause, fields, boosts, synonyms);
    let blank = clause matches ClauseV::FuzzyTerm { term, distance } && lowercase(term).len() == 0;
    if leaves.len() == 0 || blank {
        TreeV::Empty
    } else {
        TreeV::Group(leaves)
    }
}

/// How a required clause counts.
pub open spec fn required_occurs(mode: SearchMode) -> Occurs {
    match mode {
        SearchMode::All => Occurs::Must,
        SearchMode::Any => Occurs::Should,
    }
}

/// The queries of clauses.
pub open spec fn clause_trees(
    clauses: Seq<ClauseV>,
    occurs: Occurs,
    fields: Seq<SearchableV>,
    boosts: Seq<SearchFieldV>,
    synonyms: Seq<ExpansionV>,
) -> Seq<(Occurs, TreeV)> {
    clauses.map_values(|c: ClauseV| (occurs, clause_tree(c, fields, boosts, synonyms)))
}

/// A clause that every document meets.
pub open spec fn everything() -> Seq<(Occurs, TreeV)> {
    seq![(Occurs::Must, TreeV::All)]
}

/// How a simple query is put to the index: each required clause is optional
/// (any) or needed (all), and each excluded clause must not match. Without a
/// required clause the query starts from all documents.
pub open spec fn simple_clauses(query: FullTextQueryV, fields: Seq<SearchableV>) -> Seq<
    (Occurs, TreeV),
> {
    if query.required.len() == 0 && query.excluded.len() == 0 {
        everything()
    } else {
        (if query.required.len() == 0 {
            everything()
        } else {
            seq![]
        }) + clause_trees(
            query.required,
            required_occurs(query.mode),
            fields,
            query.boosts,
            query.synonyms,
        ) + clause_trees(
            query.excluded,
            Occurs::MustNot,
            fields,
            query.boosts,
            query.synonyms,
        )
    }
}

fn push_boosted_term(q: &mut QueryClauses, field: u32, token: &str, boost: u64)
    ensures
        clauses_of(*final(q)) == clauses_of(*old(q)).push(
            (Occurs::Should, boosted(TreeV::Term(field as int, token@), boost)),
        ),
{
    let ghost start = clauses_of(*q);
    push_term(q, field, token);
    assert(clauses_of(*q).drop_last() =~= start);
    boost_new(q, boost, Ghost(start));
}

/// Boosts the clause that was pushed last.
fn boost_new(q: &mut QueryClauses, boost: u64, start: Ghost<Seq<(Occurs, TreeV)>>)
    requires
        clauses_of(*old(q)).len() > 0,
        clauses_of(*old(q)).drop_last() == start@,
    ensures
        clauses_of(*final(q)) == start@.push(
            (clauses_of(*old(q)).last().0, boosted(clauses_of(*old(q)).last().1, boost)),
        ),
{
    if boost <= 0xbfef_ffff_c000_0000 || boost >= 0xbff0_0000_2000_0000 {
        boost_last(q, boost);
    } else {
        assert(clauses_of(*q) =~= start@.push(clauses_of(*q).last()));
    }
}

fn push_terms(q: &mut QueryClauses, tokens: &Vec<String>, field: u32, boost: u64)
    ensures
        clauses_of(*final(q)) == clauses_of(*old(q)) + term_leaves(texts(tokens@), field, boost),
{
    let ghost start = clauses_of(*q);
    let ghost leaves = term_leaves(texts(tokens@), field, boost);
    let mut i: usize = 0;
    assert(start + leaves.take(0) =~= start);
    while i < tokens.len()
        invariant
            leaves == term_leaves(texts(tokens@), field, boost),
            i <= tokens@.len(),
            clauses_of(*q) == start + leaves.take(i as int),
        decreases tokens@.len() - i,
    {
        push_boosted_term(q, field, tokens[i].as_str(), boost);
        assert(texts(tokens@)[i as int] == tokens@[i as int]@);
        i += 1;
        assert(clauses_of(*q) =~= start + leaves.take(i as int));
    }
    assert(leaves.take(i as int) =~= leaves);
}

fn find_expansions<'a>(synonyms: &'a Vec<Expansion>, term: &str) -> (r: Option<&'a Vec<String>>)
    ensures
        match r {
            Some(v) => texts(v@) == added_terms(expansion_views(synonyms@), term@),
            None => added_terms(expansion_views(synonyms@), term@).len() == 0,
        },
{
    let ghost all = expansion_views(synonyms@);
    let mut i: usize = 0;
    assert(all.skip(0) =~= all);
    while i < synonyms.len()
        invariant
            all == expansion_views(synonyms@),
            i <= synonyms@.len(),
            added_terms(all, term@) == added_terms(all.skip(i as int), term@),
        decreases synonyms@.len() - i,
    {
        assert(all.skip(i as int)[0] == synonyms@[i as int]@);
        assert(all.skip(i as int).drop_first() =~= all.skip(i + 1));
        if same_text(synonyms[i].term.as_str(), term) {
            return Some(&synonyms[i].added);
        }
        i += 1;
    }
    None
}

pub(crate) fn opt_as_str(o: &Option<String>) -> (r: Option<&str>)
    ensures
        opt_str(r) == opt_text(*o),
{
    match o {
        Some(s) => Some(s.as_str()),
        None => None,
    }
}

fn push_term_clause(
    q: &mut QueryClauses,
    term: &str,
    s: &SearchableField,
    boost: u64,
    synonyms: &Vec<Expansion>,
)
    ensures
        clauses_of(*final(q)) == clauses_of(*old(q)) + field_leaves(
            ClauseV::Term(term@),
            s@,
            boost,
            expansion_views(synonyms@),
        ),
{
    let ghost start = clauses_of(*q);
    let ghost analyzer = opt_text(s.analyzer);
    let ghost own = terms_of(term@, analyzer);
    let tokens = analyze_with(term, opt_as_str(&s.analyzer));
    push_terms(q, &tokens, s.field, boost);
    if let Some(added) = find_expansions(synonyms, term) {
        let ghost all = texts(added@);
        let mut i: usize = 0;
        assert(own + all_terms(all.take(0), analyzer) =~= own);
        while i < added.len()
            invariant
                all == texts(added@),
                analyzer == opt_text(s.analyzer),
                i <= added@.len(),
                clauses_of(*q) == start + term_leaves(
                    own + all_terms(all.take(i as int), analyzer),
                    s.field,
                    boost,
                ),
            decreases added@.len() - i,
        {
            assert(all.take(i + 1).drop_last() =~= all.take(i as int));
            assert(all[i as int] == added@[i as int]@);
            let more = analyze_with(added[i].as_str(), opt_as_str(&s.analyzer));
            push_terms(q, &more, s.field, boost);
            i += 1;
            assert(clauses_of(*q) =~= start + term_leaves(
                own + all_terms(all.take(i as int), analyzer),
                s.field,
                boost,
            ));
        }
        assert(all.take(i as int) =~= all);
    } else {
        assert(all_terms(added_terms(expansion_views(synonyms@), term@), analyzer) =~= seq![]);
        assert(own + Seq::<Seq<char>>::empty() =~= own);
    }
}

fn push_field_leaves(
    q: &mut QueryClauses,
    clause: &Clause,
    s: &SearchableField,
    boost: u64,
    synonyms: &Vec<Expansion>,
)
    ensures
        clauses_of(*final(q)) == clauses_of(*old(q)) + field_leaves(
            clause@,
            s@,
            boost,
            expansion_views(synonyms@),
        ),
{
    let ghost start = clauses_of(*q);
    match clause {
        Clause::Term(term) => {
            push_term_clause(q, term.as_str(), s, boost, synonyms);
        },
        Clause::FuzzyTerm { term, distance } => {
            let text = to_lowercase(term.as_str());
            push_fuzzy(q, s.field, text.as_str(), *distance);
            assert(clauses_of(*q).drop_last() =~= start);
            boost_new(q, boost, Ghost(start));
            assert(clauses_of(*q) =~= start + field_leaves(
                clause@,
                s@,
                boost,
                expansion_views(synonyms@),
            ));
        },
        Clause::Phrase(phrase) => {
            let tokens = analyze_with(phrase.as_str(), opt_as_str(&s.analyzer));
            assert(tokens@.len() == texts(tokens@).len());
            if tokens.len() < 2 {
                push_terms(q, &tokens, s.field, boost);
            } else {
                push_phrase(q, s.field, &tokens);
                assert(clauses_of(*q).drop_last() =~= start);
                boost_new(q, boost, Ghost(start));
                assert(clauses_of(*q) =~= start + field_leaves(
                    clause@,
                    s@,
                    boost,
                    expansion_views(synonyms@),
                ));
            }
        },
    }
}

/// Looks up the score boost for a field (one when no weight was given).
fn field_boost(boosts: &KeyedList<SearchField>, field: &str) -> (r: u64)
    ensures
        r == boost_of(boosts@, field@),
{
    match boosts.get(field) {
        Some(f) => f.boost,
        None => ONE_RANK,
    }
}

/// Puts a clause to the fields: an OR over what it asks of each of them.
fn push_clause(
    q: &mut QueryClauses,
    occurs: Occurs,
    clause: &Clause,
    fields: &Vec<SearchableField>,
    query: &FullTextQuery,
)
    ensures
        clauses_of(*final(q)) == clauses_of(*old(q)).push(
            (
                occurs,
                clause_tree(clause@, searchable_views(fields@), query@.boosts, query@.synonyms),
            ),
        ),
{
    if let Clause::FuzzyTerm { term, .. } = clause {
        if to_lowercase(term.as_str()).as_str().is_empty() {
            push_empty(q, occurs);
            return;
        }
    }
    let ghost all = searchable_views(fields@);
    let mut inner = no_clauses();
    let mut i: usize = 0;
    assert(clauses_of(inner) =~= clause_leaves(
        clause@,
        all.take(0),
        query@.boosts,
        query@.synonyms,
    ));
    while i < fields.len()
        invariant
            all == searchable_views(fields@),
            i <= fields@.len(),
            clauses_of(inner) == clause_leaves(
                clause@,
                all.take(i as int),
                query@.boosts,
                query@.synonyms,
            ),
        decreases fields@.len() - i,
    {
        assert(all.take(i + 1).drop_last() =~= all.take(i as int));
        assert(all[i as int] == fields@[i as int]@);
        let boost = field_boost(&query.boosts, fields[i].name.as_str());
        push_field_leaves(&mut inner, clause, &fields[i], boost, &query.synonyms);
        i += 1;
    }
    assert(all.take(i as int) =~= all);
    if has_clauses(&inner) {
        push_group(q, occurs, inner);
    } else {
        push_empty(q, occurs);
    }
}

/// Builds the query for a simple [`FullTextQuery`].
pub(crate) fn build_query(query: &FullTextQuery, fields: &Vec<SearchableField>) -> (r: QueryClauses)
    ensures
        clauses_of(r) == simple_clauses(query@, searchable_views(fields@)),
{
    let ghost all = searchable_views(fields@);
    let mut q = no_clauses();
    if query.required.len() == 0 {
        push_all(&mut q);
        assert(clauses_of(q) =~= everything());
        if query.excluded.len() == 0 {
            return q;
        }
    }
    let occurs = match query.mode {
        SearchMode::All => Occurs::Must,
        SearchMode::Any => Occurs::Should,
    };
    let ghost start = clauses_of(q);
    let ghost required = clause_trees(
        query@.required,
        occurs,
        all,
        query@.boosts,
        query@.synonyms,
    );
    let mut i: usize = 0;
    assert(start + required.take(0) =~= start);
    while i < query.required.len()
        invariant
            all == searchable_views(fields@),
            required == clause_trees(query@.required, occurs, all, query@.boosts, query@.synonyms),
            i <= query.required@.len(),
            clauses_of(q) == start + required.take(i as int),
        decreases query.required@.len() - i,
    {
        push_clause(&mut q, occurs, &query.required[i], fields, query);
        assert(query@.required[i as int] == query.required@[i as int]@);
        i += 1;
        assert(clauses_of(q) =~= start + required.take(i as int));
    }
    assert(required.take(i as int) =~= required);
    let ghost middle = clauses_of(q);
    let ghost excluded = clause_trees(
        query@.excluded,
        Occurs::MustNot,
        all,
        query@.boosts,
        query@.synonyms,
    );
    let mut k: usize = 0;
    assert(middle + excluded.take(0) =~= middle);
    while k < query.excluded.len()
        invariant
            all == searchable_views(fields@),
            excluded == clause_trees(
                query@.excluded,
                Occurs::MustNot,
                all,
                query@.boosts,
                query@.synonyms,
            ),
            k <= query.excluded@.len(),
            clauses_of(q) == middle + excluded.take(k as int),
        decreases query.excluded@.len() - k,
    {
        push_clause(&mut q, Occurs::MustNot, &query.excluded[k], fields, query);
        assert(query@.excluded[k as int] == query.excluded@[k as int]@);
        k += 1;
        assert(clauses_of(q) =~= middle + excluded.take(k as int));
    }
    assert(excluded.take(k as int) =~= excluded);
    q
}

} // verus!
