//! Autocomplete and suggest.
use crate::error::{ApiError, ApiErrorV, invalid_query_v};
use crate::filter::eval::satisfies;
use crate::filter::expr::{FilterExpr, FilterExprV};
use crate::json::{JsonV, ref_values};
use crate::query::analyzers::opt_str;
use crate::service::highlights::{field_words, strings_of, words_among};
use crate::service::paging::{countable, keep_stored, stored_members};
use crate::service::parsing::parse_filter_option;
use crate::service::search::token_filter;
use crate::service::state::{SearchService, ServiceV, no_index};
use crate::service::types::{
    AutocompleteCompletion, CompletionV, Suggestion, SuggestionV, completion_views, opt_expr,
    suggestion_views,
};
use crate::storage::definition::{FieldV, Suggester};
use crate::storage::document::{Document, DocumentV, path_values};
use crate::storage::index::suggester_named;
use crate::storage::keyed::KeyedList;
use crate::storage::memory::lemma_found_has_key;
use crate::text::{
    cat3, cat5, clone_texts, contains_text, debug_text, extend_texts, has_part, holds_text,
    lemma_texts_push, lowercase, quoted, texts, to_lowercase, trim, trimmed,
};
use vstd::prelude::*;

verus! {

// ---------------------------------------------------------------------------
// Words
// ---------------------------------------------------------------------------

/// The words of values.
pub open spec fn words_of_values(v: Seq<JsonV>) -> Seq<Seq<char>>
    decreases v.len(),
{
    if v.len() == 0 {
        seq![]
    } else {
        words_of_values(v.drop_last()) + words_among(strings_of(v.last()))
    }
}

/// The words of some fields of a document, in field order, then value order,
/// then word order.
pub open spec fn document_words(d: DocumentV, fields: Seq<Seq<char>>) -> Seq<Seq<char>>
    decreases fields.len(),
{
    if fields.len() == 0 {
        seq![]
    } else {
        document_words(d, fields.drop_last()) + words_of_values(
            path_values(d.fields, fields.last()),
        )
    }
}

/// The words whose lowercase form holds a text.
pub open spec fn words_with(list: Seq<Seq<char>>, needle: Seq<char>) -> Seq<Seq<char>>
    decreases list.len(),
{
    if list.len() == 0 {
        seq![]
    } else {
        let rest = words_with(list.drop_last(), needle);
        if has_part(lowercase(list.last()), needle) {
            rest.push(list.last())
        } else {
            rest
        }
    }
}

/// The words of a document's suggester search fields, in field order, then
/// value order, then word order.
pub fn suggester_words(document: &Document, suggester: &Suggester) -> (r: Vec<String>)
    ensures
        texts(r@) == document_words(document@, suggester@.search_fields),
{
    let ghost all = texts(suggester.search_fields@);
    let mut out: Vec<String> = Vec::new();
    let mut i: usize = 0;
    assert(texts(out@) =~= document_words(document@, all.take(0)));
    while i < suggester.search_fields.len()
        invariant
            all == texts(suggester.search_fields@),
            i <= suggester.search_fields@.len(),
            texts(out@) == document_words(document@, all.take(i as int)),
        decreases suggester.search_fields@.len() - i,
    {
        assert(all.take(i + 1).drop_last() =~= all.take(i as int));
        assert(all[i as int] == suggester.search_fields@[i as int]@);
        let found = document.resolve_path(suggester.search_fields[i].as_str());
        let ghost start = texts(out@);
        let ghost vs = ref_values(found@);
        let mut k: usize = 0;
        assert(start + words_of_values(vs.take(0)) =~= start);
        while k < found.len()
            invariant
                vs == ref_values(found@),
                k <= found@.len(),
                texts(out@) == start + words_of_values(vs.take(k as int)),
            decreases found@.len() - k,
        {
            assert(vs.take(k + 1).drop_last() =~= vs.take(k as int));
            assert(vs[k as int] == found@[k as int]@);
            extend_texts(&mut out, field_words(found[k]));
            k += 1;
            assert(texts(out@) =~= start + words_of_values(vs.take(k as int)));
        }
        assert(vs.take(k as int) =~= vs);
        i += 1;
    }
    assert(all.take(i as int) =~= all);
    out
}

fn keep_words(list: &Vec<String>, needle: &str) -> (r: Vec<String>)
    ensures
        texts(r@) == words_with(texts(list@), needle@),
{
    broadcast use lemma_texts_push;

    let ghost all = texts(list@);
    let mut out: Vec<String> = Vec::new();
    let mut i: usize = 0;
    assert(texts(out@) =~= words_with(all.take(0), needle@));
    while i < list.len()
        invariant
            all == texts(list@),
            i <= list@.len(),
            texts(out@) == words_with(all.take(i as int), needle@),
        decreases list@.len() - i,
    {
        broadcast use lemma_texts_push;

        assert(all.take(i + 1).drop_last() =~= all.take(i as int));
        assert(all[i as int] == list@[i as int]@);
        if contains_text(to_lowercase(list[i].as_str()).as_str(), needle) {
            let ghost before = texts(out@);
            let w = list[i].clone();
            out.push(w);
            assert(texts(out@) == before.push(w@));
        }
        i += 1;
    }
    assert(all.take(i as int) =~= all);
    out
}

// ---------------------------------------------------------------------------
// Candidates
// ---------------------------------------------------------------------------

/// A candidate document with its matching words.
pub struct Candidate {
    pub document: Document,
    pub words: Vec<String>,
}

/// The mathematical value of a [`Candidate`].
pub struct CandidateV {
    pub document: DocumentV,
    pub words: Seq<Seq<char>>,
}

impl View for Candidate {
    type V = CandidateV;

    open spec fn view(&self) -> CandidateV {
        CandidateV { document: self.document@, words: texts(self.words@) }
    }
}

pub open spec fn candidate_views(v: Seq<Candidate>) -> Seq<CandidateV> {
    v.map_values(|c: Candidate| c@)
}

/// Whether a document is a candidate: it passes the filter.
pub open spec fn admitted(filter: Option<FilterExprV>, d: DocumentV) -> bool {
    match filter {
        Some(e) => satisfies(e, d.fields),
        None => true,
    }
}

/// The candidates among documents: those that pass the filter and have a
/// matching word.
pub open spec fn candidates_of(
    docs: Seq<DocumentV>,
    fields: Seq<Seq<char>>,
    filter: Option<FilterExprV>,
    needle: Seq<char>,
) -> Seq<CandidateV>
    decreases docs.len(),
{
    if docs.len() == 0 {
        seq![]
    } else {
        let rest = candidates_of(docs.drop_last(), fields, filter, needle);
        let document = docs.last();
        let found = words_with(document_words(document, fields), needle);
        if admitted(filter, document) && found.len() > 0 {
            rest.push(CandidateV { document, words: found })
        } else {
            rest
        }
    }
}

/// The suggester's candidate documents with their matching words: each document
/// passing `filter` (in key order) paired with the words of the suggester's
/// search fields that contain `needle` (case-insensitive). Documents with no
/// matching word are omitted.
pub fn suggester_candidates(
    documents: &KeyedList<Document>,
    suggester: &Suggester,
    filter: &Option<FilterExpr>,
    needle: &str,
) -> (r: Vec<Candidate>)
    ensures
        candidate_views(r@) == candidates_of(
            documents@,
            suggester@.search_fields,
            opt_expr(*filter),
            needle@,
        ),
{
    let ghost all = documents@;
    let ghost fields = suggester@.search_fields;
    let mut out: Vec<Candidate> = Vec::new();
    let mut i: usize = 0;
    assert(candidate_views(out@) =~= candidates_of(
        all.take(0),
        fields,
        opt_expr(*filter),
        needle@,
    ));
    while i < documents.len()
        invariant
            all == documents@,
            fields == suggester@.search_fields,
            i <= all.len(),
            candidate_views(out@) == candidates_of(
                all.take(i as int),
                fields,
                opt_expr(*filter),
                needle@,
            ),
        decreases all.len() - i,
    {
        assert(all.take(i + 1).drop_last() =~= all.take(i as int));
        let d = documents.at(i);
        let pass = match filter {
            Some(e) => e.matches(&d.fields),
            None => true,
        };
        if pass {
            let found = keep_words(&suggester_words(d, suggester), needle);
            assert(found@.len() == texts(found@).len());
            if found.len() > 0 {
                let ghost old_out = out@;
                let c = Candidate { document: d.duplicate(), words: found };
                out.push(c);
                assert(candidate_views(out@) =~= candidate_views(old_out).push(c@));
            }
        }
        i += 1;
    }
    assert(all.take(i as int) =~= all);
    out
}

// ---------------------------------------------------------------------------
// Completions and suggestions
// ---------------------------------------------------------------------------

/// The matching words of candidates.
pub open spec fn candidate_words(c: Seq<CandidateV>) -> Seq<Seq<char>>
    decreases c.len(),
{
    if c.len() == 0 {
        seq![]
    } else {
        candidate_words(c.drop_last()) + c.last().words
    }
}

/// The distinct words from `i` on behind those in `done`, in order, until there
/// are `limit` of them.
pub open spec fn distinct_words(
    list: Seq<Seq<char>>,
    i: int,
    done: Seq<Seq<char>>,
    limit: int,
) -> Seq<Seq<char>>
    decreases list.len() - i,
{
    if i >= list.len() || done.len() >= limit {
        done
    } else if done.contains(list[i]) {
        distinct_words(list, i + 1, done, limit)
    } else {
        distinct_words(list, i + 1, done.push(list[i]), limit)
    }
}

/// The completion of a search text with a word.
pub open spec fn completion_of(search: Seq<char>, word: Seq<char>) -> CompletionV {
    CompletionV { text: word, query_plus_text: search + " "@ + word }
}

pub open spec fn completions_of(search: Seq<char>, list: Seq<Seq<char>>) -> Seq<CompletionV> {
    list.map_values(|w: Seq<char>| completion_of(search, w))
}

/// The first candidates, at most `limit` of them.
pub open spec fn first_candidates(c: Seq<CandidateV>, limit: int) -> Seq<CandidateV> {
    if limit < c.len() {
        c.take(limit)
    } else {
        c
    }
}

/// The suggestions from candidates, without the fields that are not stored.
pub open spec fn suggestions_of(c: Seq<CandidateV>, fields: Seq<FieldV>) -> Seq<SuggestionV> {
    c.map_values(
        |x: CandidateV|
            SuggestionV {
                document: DocumentV {
                    key: x.document.key,
                    fields: stored_members(x.document.fields, fields),
                },
                text: x.words[0],
            },
    )
}

fn limit_of(top: u64) -> (r: usize)
    ensures
        r == countable(top),
{
    if top <= usize::MAX as u64 {
        top as usize
    } else {
        usize::MAX
    }
}

fn flatten_words(c: &Vec<Candidate>) -> (r: Vec<String>)
    ensures
        texts(r@) == candidate_words(candidate_views(c@)),
{
    let ghost all = candidate_views(c@);
    let mut out: Vec<String> = Vec::new();
    let mut i: usize = 0;
    assert(texts(out@) =~= candidate_words(all.take(0)));
    while i < c.len()
        invariant
            all == candidate_views(c@),
            i <= c@.len(),
            texts(out@) == candidate_words(all.take(i as int)),
        decreases c@.len() - i,
    {
        assert(all.take(i + 1).drop_last() =~= all.take(i as int));
        assert(all[i as int] == c@[i as int]@);
        extend_texts(&mut out, clone_texts(&c[i].words));
        i += 1;
    }
    assert(all.take(i as int) =~= all);
    out
}

fn collect_distinct(list: &Vec<String>, limit: usize) -> (r: Vec<String>)
    ensures
        texts(r@) == distinct_words(texts(list@), 0, seq![], limit as int),
{
    broadcast use lemma_texts_push;

    let ghost all = texts(list@);
    let mut out: Vec<String> = Vec::new();
    let mut i: usize = 0;
    assert(texts(out@) =~= seq![]);
    while i < list.len() && out.len() < limit
        invariant
            all == texts(list@),
            i <= list@.len(),
            distinct_words(all, 0, seq![], limit as int) == distinct_words(
                all,
                i as int,
                texts(out@),
                limit as int,
            ),
        decreases list@.len() - i,
    {
        broadcast use lemma_texts_push;

        assert(all[i as int] == list@[i as int]@);
        if !holds_text(&out, list[i].as_str()) {
            let ghost before = texts(out@);
            let w = list[i].clone();
            out.push(w);
            assert(texts(out@) == before.push(w@));
        }
        i += 1;
    }
    out
}

/// What an autocomplete or suggest request finds, or why it is refused.
pub open spec fn suggest_candidates_of(
    s: ServiceV,
    index: Seq<char>,
    suggester: Seq<char>,
    search: Seq<char>,
    filter: Option<Seq<char>>,
    empty_message: Seq<char>,
) -> Result<Seq<CandidateV>, ApiErrorV> {
    match s.entry(index) {
        None => Err(no_index(index)),
        Some(e) => match suggester_named(e.definition.suggesters, suggester, 0) {
            None => Err(
                invalid_query_v(
                    "Suggester "@ + debug_text(suggester) + " is not defined on index "@
                        + debug_text(index) + "."@,
                ),
            ),
            Some(x) => match token_filter(filter) {
                Err(e) => Err(e),
                Ok(expr) => if lowercase(trim(search)).len() == 0 {
                    Err(invalid_query_v(empty_message))
                } else {
                    Ok(
                        candidates_of(
                            e.documents,
                            x.search_fields,
                            expr,
                            lowercase(trim(search)),
                        ),
                    )
                },
            },
        },
    }
}

impl SearchService {
    fn find_suggest_candidates(
        &self,
        index: &str,
        suggester_name: &str,
        search_text: &str,
        filter: Option<&str>,
        empty_message: &str,
    ) -> (r: Result<Vec<Candidate>, ApiError>)
        ensures
            match suggest_candidates_of(
                self@,
                index@,
                suggester_name@,
                search_text@,
                opt_str(filter),
                empty_message@,
            ) {
                Ok(c) => r is Ok && candidate_views(r->Ok_0@) == c,
                Err(e) => r is Err && r->Err_0@ == e,
            },
    {
        let definition = self.require_index(index)?;
        proof {
            lemma_found_has_key(self@.storage, self@.resolved(index@));
        }
        let suggester = match definition.suggester(suggester_name) {
            Some(x) => x,
            None => {
                return Err(
                    ApiError::invalid_query(
                        cat5(
                            "Suggester ",
                            quoted(suggester_name).as_str(),
                            " is not defined on index ",
                            quoted(index).as_str(),
                            ".",
                        ).as_str(),
                    ),
                );
            },
        };
        let expr = match filter {
            Some(text) => Some(parse_filter_option(text)?),
            None => None,
        };
        let needle = to_lowercase(trimmed(search_text).as_str());
        if needle.as_str().is_empty() {
            return Err(ApiError::invalid_query(empty_message));
        }
        match self.stored(definition.name.as_str()) {
            Some(docs) => Ok(suggester_candidates(docs, suggester, &expr, needle.as_str())),
            None => Ok(Vec::new()),
        }
    }

    /// Runs an autocomplete query: case-insensitive prefix or infix matching of
    /// the search text against the whitespace-separated words of the suggester's
    /// search fields. Gives up to `top` distinct completions, ordered by first
    /// appearance (documents in key order, then field order).
    pub fn autocomplete(
        &self,
        index: &str,
        suggester_name: &str,
        search_text: &str,
        top: u64,
        filter: Option<&str>,
    ) -> (r: Result<Vec<AutocompleteCompletion>, ApiError>)
        ensures
            match suggest_candidates_of(
                self@,
                index@,
                suggester_name@,
                search_text@,
                opt_str(filter),
                "The autocomplete search text must be a non-empty string."@,
            ) {
                Ok(c) => r is Ok && completion_views(r->Ok_0@) == completions_of(
                    trim(search_text@),
                    distinct_words(candidate_words(c), 0, seq![], countable(top)),
                ),
                Err(e) => r is Err && r->Err_0@ == e,
            },
    {
        let found = self.find_suggest_candidates(
            index,
            suggester_name,
            search_text,
            filter,
            "The autocomplete search text must be a non-empty string.",
        )?;
        let search = trimmed(search_text);
        let list = collect_distinct(&flatten_words(&found), limit_of(top));
        let ghost all = completions_of(search@, texts(list@));
        let mut out: Vec<AutocompleteCompletion> = Vec::new();
        let mut i: usize = 0;
        assert(completion_views(out@) =~= all.take(0));
        while i < list.len()
            invariant
                all == completions_of(search@, texts(list@)),
                i <= list@.len(),
                completion_views(out@) == all.take(i as int),
            decreases list@.len() - i,
        {
            let ghost old_out = out@;
            assert(texts(list@)[i as int] == list@[i as int]@);
            let c = AutocompleteCompletion {
                query_plus_text: cat3(search.as_str(), " ", list[i].as_str()),
                text: list[i].clone(),
            };
            out.push(c);
            assert(completion_views(out@) =~= completion_views(old_out).push(c@));
            assert(all[i as int] == c@);
            i += 1;
            assert(completion_views(out@) =~= all.take(i as int));
        }
        assert(all.take(i as int) =~= all);
        Ok(out)
    }

    /// Runs a suggest query: a document matches when any whitespace-separated
    /// word of the suggester's search fields contains the search text
    /// (case-insensitive prefix or infix match). Gives up to `top` matching
    /// documents in key order, each with the first matched word.
    pub fn suggest(
        &self,
        index: &str,
        suggester_name: &str,
        search_text: &str,
        top: u64,
        filter: Option<&str>,
    ) -> (r: Result<Vec<Suggestion>, ApiError>)
        ensures
            match suggest_candidates_of(
                self@,
                index@,
                suggester_name@,
                search_text@,
                opt_str(filter),
                "The suggest search text must be a non-empty string."@,
            ) {
                Ok(c) => r is Ok && suggestion_views(r->Ok_0@) == suggestions_of(
                    first_candidates(c, countable(top)),
                    self@.entry(index@)->Some_0.definition.fields,
                ),
                Err(e) => r is Err && r->Err_0@ == e,
            },
    {
        let found = self.find_suggest_candidates(
            index,
            suggester_name,
            search_text,
            filter,
            "The suggest search text must be a non-empty string.",
        )?;
        let definition = self.require_index(index)?;
        let ghost c = candidate_views(found@);
        let limit = limit_of(top);
        let n: usize = if limit < found.len() {
            limit
        } else {
            found.len()
        };
        let ghost all = suggestions_of(c, definition@.fields);
        let mut out: Vec<Suggestion> = Vec::new();
        let mut i: usize = 0;
        assert(suggestion_views(out@) =~= all.take(0));
        proof {
            if let Some(e) = self@.entry(index@) {
                if let Some(x) = suggester_named(e.definition.suggesters, suggester_name@, 0) {
                    if let Ok(expr) = token_filter(opt_str(filter)) {
                        lemma_candidates_have_words(
                            e.documents,
                            x.search_fields,
                            expr,
                            lowercase(trim(search_text@)),
                        );
                    }
                }
            }
        }
        while i < n
            invariant
                n <= found@.len(),
                c == candidate_views(found@),
                all == suggestions_of(c, definition@.fields),
                forall|k: int| 0 <= k < c.len() ==> (#[trigger] c[k]).words.len() > 0,
                i <= n,
                suggestion_views(out@) == all.take(i as int),
            decreases n - i,
        {
            let ghost old_out = out@;
            assert(c[i as int] == found@[i as int]@);
            assert(texts(found@[i as int].words@).len() == found@[i as int].words@.len());
            let d = &found[i].document;
            let s = Suggestion {
                document: Document {
                    key: d.key.clone(),
                    fields: keep_stored(&d.fields, &definition),
                },
                text: found[i].words[0].clone(),
            };
            out.push(s);
            assert(suggestion_views(out@) =~= suggestion_views(old_out).push(s@));
            assert(all[i as int] == s@);
            i += 1;
            assert(suggestion_views(out@) =~= all.take(i as int));
        }
        assert(suggestions_of(first_candidates(c, countable(top)), definition@.fields) =~= all.take(
            n as int,
        ));
        Ok(out)
    }
}

// ---------------------------------------------------------------------------
// Laws
// ---------------------------------------------------------------------------

proof fn lemma_candidates_have_words(
    docs: Seq<DocumentV>,
    fields: Seq<Seq<char>>,
    filter: Option<FilterExprV>,
    needle: Seq<char>,
)
    ensures
        forall|k: int|
            0 <= k < candidates_of(docs, fields, filter, needle).len() ==> (
            #[trigger] candidates_of(docs, fields, filter, needle)[k]).words.len() > 0,
    decreases docs.len(),
{
    if docs.len() > 0 {
        lemma_candidates_have_words(docs.drop_last(), fields, filter, needle);
        let rest = candidates_of(docs.drop_last(), fields, filter, needle);
        let all = candidates_of(docs, fields, filter, needle);
        assert forall|k: int| 0 <= k < all.len() implies (#[trigger] all[k]).words.len() > 0 by {
            if k < rest.len() {
                assert(all[k] == rest[k]);
            }
        }
    }
}

/// Completions are distinct and no more than the limit, and where they are fewer,
/// every matching word is one of them.
pub proof fn law_completions_are_distinct(
    list: Seq<Seq<char>>,
    i: int,
    done: Seq<Seq<char>>,
    limit: int,
)
    requires
        done.no_duplicates(),
        0 <= i,
        done.len() <= limit,
        forall|k: int| 0 <= k < i && k < list.len() ==> done.contains(#[trigger] list[k]),
    ensures
        distinct_words(list, i, done, limit).no_duplicates(),
        distinct_words(list, i, done, limit).len() <= limit,
        distinct_words(list, i, done, limit).len() < limit ==> forall|k: int|
            0 <= k < list.len() ==> distinct_words(list, i, done, limit).contains(
                #[trigger] list[k],
            ),
    decreases list.len() - i,
{
    if i < list.len() && done.len() < limit {
        let next = done.push(list[i]);
        if done.contains(list[i]) {
            law_completions_are_distinct(list, i + 1, done, limit);
        } else {
            assert(next.no_duplicates());
            assert forall|k: int| 0 <= k < i + 1 && k < list.len() implies next.contains(
                #[trigger] list[k],
            ) by {
                if k < i {
                    let j = choose|j: int| 0 <= j < done.len() && done[j] == list[k];
                    assert(next[j] == list[k]);
                } else {
                    assert(next[done.len() as int] == list[k]);
                }
            }
            law_completions_are_distinct(list, i + 1, next, limit);
        }
    }
}

/// Every matching word of a candidate holds the search text, whatever the case.
pub proof fn law_matching_words_hold_text(list: Seq<Seq<char>>, needle: Seq<char>, k: int)
    requires
        0 <= k < words_with(list, needle).len(),
    ensures
        has_part(lowercase(words_with(list, needle)[k]), needle),
        list.contains(words_with(list, needle)[k]),
    decreases list.len(),
{
    if list.len() > 0 {
        let rest = words_with(list.drop_last(), needle);
        if k < rest.len() {
            law_matching_words_hold_text(list.drop_last(), needle, k);
            assert(words_with(list, needle)[k] == rest[k]);
            let j = choose|j: int|
                0 <= j < list.drop_last().len() && list.drop_last()[j] == rest[k];
            assert(list[j] == rest[k]);
        } else {
            assert(words_with(list, needle)[k] == list[list.len() - 1]);
        }
    }
}

} // verus!
