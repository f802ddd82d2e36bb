//! The search engine: one full-text index per search index.
use crate::json::{is_nan_rank, nan_rank, rank_lt, ranks_less};
use crate::query::analyzers::{
    AnalyzeTokenV, analyzer_tokenizer_name, law_every_analyzer_is_registered,
    law_tokens_stand_in_order, lemma_registered_name_is_not_raw, pipeline_tokens, positions_rise,
    registered_names, registered_tokenizers, run_analyzer, terms_of, tokenizer_name,
};
use crate::query::fulltext::{
    Hit, HitV, IndexedV, LAST_FIELD, MAX_POSITIONS, Occurs, ParserV, QueryClauses, TextIndex,
    TreeV, ValueTokensV, add_document, add_key_field, add_text_field, add_tokenizer, add_tokens,
    allow_regexes, boost_field, clauses_of, delete_key, demand_all, document_contents, fits_token,
    found, has_token, hit_views, holds_phrase, index_answer, index_columns, index_pending,
    index_tokenizers, index_visible, names_field, new_document, new_schema, no_clauses,
    open_index, own_tokenizers, parse_problem, parser_for, parser_setup, phrase_at, positions_fit,
    positions_of, publish, push_all, push_parsed, restore, schema_columns, search_index,
    tokenizer_names, tree_fits, tree_matches, within_edits, without_document, writer_restorable,
    writer_works,
};
use crate::query::lucene::{QueryError, QueryErrorV, lucene_parser_text, parser_text};
use crate::query::nesting::{is_shallow, nests_shallowly};
use crate::query::plan::{
    Column, ColumnV, SearchableField, SearchableV, added_terms, all_terms, boost_of, boosted,
    build_query, clause_leaves, clause_tree, clause_trees, column_views, columns_below,
    document_texts, everything, field_leaves, field_texts, lemma_searchable_views_push,
    opt_as_str, required_occurs, searchable_columns, searchable_views, simple_clauses,
};
use crate::query::simple::{
    ClauseV, ExpansionV, FullTextQuery, FullTextQueryV, SearchField, SearchFieldV, SearchMode,
    opt_texts,
};
use crate::storage::definition::{FieldDefinition, FieldV, field_views};
use crate::storage::document::{Document, DocumentV, document_views};
use crate::storage::keyed::{
    CopyItem, Keyed, KeyedList, keyed_find, keyed_put, keyed_remove, keyed_replace, keyed_sorted,
    law_found_item_has_key, law_put_keeps_order, law_remove_keeps_order, law_replace_keeps_order,
    lemma_put_keys, lemma_remove_items, lemma_replace_keys,
};
use crate::text::{
    cat3, chars_of, clone_opt_text, debug_text, holds_text, lemma_texts_push, lowercase, quoted,
    same_text, texts,
};
use vstd::prelude::*;

verus! {

/// The field that holds each document's key.
pub const KEY_FIELD_NAME: &'static str = "__aisearch_key";

/// Heap budget (bytes) for each index writer.
pub const WRITER_HEAP_BYTES: usize = 50_000_000;

/// Upper bound on the number of matching documents collected per search.
/// Indexes are meant to be small.
pub const MAX_MATCHES: usize = 1_000_000;

// ---------------------------------------------------------------------------
// Scores
// ---------------------------------------------------------------------------

/// A matching document's key with its relevance score. The score is a binary64
/// number, by its rank (see [`crate::json::Number`]).
#[derive(Debug, PartialEq, Eq)]
pub struct KeyScore {
    pub key: String,
    pub score: u64,
}

/// The mathematical value of a [`KeyScore`].
pub struct KeyScoreV {
    pub key: Seq<char>,
    pub score: u64,
}

impl View for KeyScore {
    type V = KeyScoreV;

    open spec fn view(&self) -> KeyScoreV {
        KeyScoreV { key: self.key@, score: self.score }
    }
}

impl Keyed for KeyScore {
    open spec fn key_of_item(item: KeyScoreV) -> Seq<char> {
        item.key
    }

    fn key(&self) -> (r: &str) {
        self.key.as_str()
    }
}

impl CopyItem for KeyScore {
    fn copy_item(&self) -> (r: KeyScore) {
        KeyScore { key: self.key.clone(), score: self.score }
    }
}

/// The better of two scores.
pub open spec fn better_score(a: u64, b: u64) -> u64 {
    if is_nan_rank(a) || rank_lt(a, b) {
        b
    } else {
        a
    }
}

/// Scores with one more: a key keeps its better score.
pub open spec fn with_score(scores: Seq<KeyScoreV>, key: Seq<char>, score: u64) -> Seq<KeyScoreV> {
    match keyed_find::<KeyScore>(scores, key) {
        Some(e) => keyed_replace::<KeyScore>(
            scores,
            key,
            (KeyScoreV { key, score: better_score(e.score, score) }),
        ),
        None => keyed_put::<KeyScore>(scores, (KeyScoreV { key, score })),
    }
}

/// The scores of hits, by key. A hit without a key counts for nothing.
pub open spec fn scores_of(hits: Seq<HitV>) -> Seq<KeyScoreV>
    decreases hits.len(),
{
    if hits.len() == 0 {
        seq![]
    } else {
        match hits.last().key {
            Some(key) => with_score(scores_of(hits.drop_last()), key, hits.last().score),
            None => scores_of(hits.drop_last()),
        }
    }
}

/// Adds a score: a key keeps its better score.
pub(crate) fn add_score(scores: &mut KeyedList<KeyScore>, key: &str, score: u64)
    ensures
        final(scores)@ == with_score(old(scores)@, key@, score),
{
    if scores.contains(key) {
        if let Some(e) = scores.get_mut(key) {
            let better = if nan_rank(e.score) || ranks_less(e.score, score) {
                score
            } else {
                e.score
            };
            *e = KeyScore { key: key.to_owned(), score: better };
        }
    } else {
        scores.put(KeyScore { key: key.to_owned(), score });
    }
}

/// Collects the scores of hits, by key.
pub fn collect_scores(hits: &Vec<Hit>) -> (r: KeyedList<KeyScore>)
    ensures
        r@ == scores_of(hit_views(hits@)),
{
    let ghost all = hit_views(hits@);
    let mut scores: KeyedList<KeyScore> = KeyedList::new();
    let mut i: usize = 0;
    while i < hits.len()
        invariant
            all == hit_views(hits@),
            i <= hits@.len(),
            scores@ == scores_of(all.take(i as int)),
        decreases hits@.len() - i,
    {
        assert(all.take(i + 1).drop_last() =~= all.take(i as int));
        assert(all[i as int] == hits@[i as int]@);
        if let Some(key) = &hits[i].key {
            add_score(&mut scores, key.as_str(), hits[i].score);
        }
        i += 1;
    }
    assert(all.take(i as int) =~= all);
    scores
}

// ---------------------------------------------------------------------------
// Indexes
// ---------------------------------------------------------------------------

/// A single search index. A change that fails is taken back as far as it can be. Where
/// that fails too, the index takes no more changes (`works`): what is searched stays as
/// it is until the index is built anew.
pub struct EngineIndex {
    name: String,
    text: TextIndex,
    searchable: Vec<SearchableField>,
    works: bool,
}

/// The mathematical value of an [`EngineIndex`].
pub struct EngineIndexV {
    pub name: Seq<char>,
    /// The fields of the full-text index, each by its name and its tokenizer's.
    pub columns: Seq<(Seq<char>, Seq<char>)>,
    /// The tokenizers that query texts are tokenized with, by their names.
    pub tokenizers: Set<Seq<char>>,
    pub searchable: Seq<SearchableV>,
    /// The documents that a search sees.
    pub visible: Seq<IndexedV>,
    /// The documents that the next change starts from.
    pub pending: Seq<IndexedV>,
    /// Whether the index takes changes.
    pub works: bool,
    /// The full-text index itself.
    pub text: TextIndex,
}

impl View for EngineIndex {
    type V = EngineIndexV;

    closed spec fn view(&self) -> EngineIndexV {
        EngineIndexV {
            name: self.name@,
            columns: index_columns(self.text),
            tokenizers: index_tokenizers(self.text),
            searchable: searchable_views(self.searchable@),
            visible: index_visible(self.text),
            pending: index_pending(self.text),
            works: self.works,
            text: self.text,
        }
    }
}

impl Keyed for EngineIndex {
    open spec fn key_of_item(item: EngineIndexV) -> Seq<char> {
        item.name
    }

    fn key(&self) -> (r: &str) {
        self.name.as_str()
    }
}

/// Whether a searchable field is the field of an index at its place: there stand its
/// name and the tokenizer of its analyzer, which query texts are tokenized with too.
pub open spec fn is_column(e: EngineIndexV, s: SearchableV) -> bool {
    &&& 0 < s.field < e.columns.len()
    &&& s.field <= LAST_FIELD
    &&& e.columns[s.field as int] == (s.name, tokenizer_name(s.analyzer))
    &&& e.tokenizers.contains(tokenizer_name(s.analyzer))
}

/// Whether the searchable fields are the fields of the index after the key, and
/// whether the full-text index can be written to while it takes changes.
pub open spec fn engine_index_wf(e: EngineIndexV) -> bool {
    &&& e.columns == index_columns(e.text)
    &&& e.tokenizers == index_tokenizers(e.text)
    &&& e.columns.len() == e.searchable.len() + 1
    &&& forall|i: int|
        0 <= i < e.searchable.len() ==> (#[trigger] e.searchable[i]).field == i + 1 && is_column(
            e,
            e.searchable[i],
        )
    &&& e.works ==> writer_works(e.text) && writer_restorable(e.text)
}

/// The searchable fields of columns.
pub open spec fn searchable_of(columns: Seq<ColumnV>) -> Seq<SearchableV> {
    Seq::new(
        columns.len(),
        |i: int|
            SearchableV {
                name: columns[i].path,
                field: (i + 1) as u32,
                analyzer: columns[i].analyzer,
            },
    )
}

/// Whether columns can be the fields of an index: their paths name fields, are
/// distinct, and differ from the key field; documents can have texts of all of
/// them.
pub open spec fn columns_fit(columns: Seq<ColumnV>) -> bool {
    &&& columns.len() <= LAST_FIELD
    &&& forall|i: int|
        0 <= i < columns.len() ==> names_field((#[trigger] columns[i]).path) && columns[i].path
            != KEY_FIELD_NAME@
    &&& forall|i: int, j: int|
        0 <= i < j < columns.len() ==> (#[trigger] columns[i]).path != (#[trigger] columns[j]).path
}

/// Whether an index can have fields.
pub open spec fn engine_schema(fields: Seq<FieldV>) -> bool {
    columns_fit(columns_below(fields, seq![]))
}

/// Whether an index can have fields.
pub fn is_engine_schema(fields: &Vec<FieldDefinition>) -> (r: bool)
    ensures
        r == engine_schema(field_views(fields@)),
{
    let columns = searchable_columns(fields);
    let ghost all = column_views(columns@);
    if columns.len() > LAST_FIELD as usize {
        return false;
    }
    let mut i: usize = 0;
    while i < columns.len()
        invariant
            all == column_views(columns@),
            all == columns_below(field_views(fields@), seq![]),
            columns@.len() <= LAST_FIELD,
            i <= columns@.len(),
            forall|k: int|
                0 <= k < i ==> names_field((#[trigger] all[k]).path) && all[k].path
                    != KEY_FIELD_NAME@,
            forall|j: int, k: int|
                0 <= j < k < i ==> (#[trigger] all[j]).path != (#[trigger] all[k]).path,
        decreases columns@.len() - i,
    {
        let path = columns[i].path.as_str();
        assert(all[i as int].path == path@);
        if path.is_empty() || starts_with_char(path, '-') || same_text(path, KEY_FIELD_NAME) {
            return false;
        }
        let mut k: usize = 0;
        while k < i
            invariant
                all == column_views(columns@),
                all == columns_below(field_views(fields@), seq![]),
                i < columns@.len(),
                k <= i,
                path@ == all[i as int].path,
                forall|j: int| 0 <= j < k ==> (#[trigger] all[j]).path != path@,
            decreases i - k,
        {
            assert(all[k as int].path == columns@[k as int].path@);
            if same_text(columns[k].path.as_str(), path) {
                return false;
            }
            k += 1;
        }
        i += 1;
    }
    true
}

fn starts_with_char(text: &str, c: char) -> (r: bool)
    requires
        text@.len() > 0,
    ensures
        r == (text@[0] == c),
{
    let chars = chars_of(text);
    chars[0] == c
}

/// The fields of a full-text index: that of the key, and one for each column with
/// the tokenizer of the analyzer that the column declares.
pub open spec fn columns_of(columns: Seq<ColumnV>) -> Seq<(Seq<char>, Seq<char>)> {
    Seq::new(
        columns.len() + 1,
        |i: int|
            if i == 0 {
                (KEY_FIELD_NAME@, "raw"@)
            } else {
                (columns[i - 1].path, tokenizer_name(columns[i - 1].analyzer))
            },
    )
}

/// The schema of an index: the key field, and one tokenized field for each
/// column with the analyzer that the column declares.
fn build_schema(columns: &Vec<Column>) -> (r: (
    tantivy::schema::SchemaBuilder,
    Vec<SearchableField>,
))
    requires
        columns_fit(column_views(columns@)),
    ensures
        schema_columns(r.0) == columns_of(column_views(columns@)),
        searchable_views(r.1@) == searchable_of(column_views(columns@)),
{
    broadcast use lemma_searchable_views_push;

    let ghost all = column_views(columns@);
    let ghost wanted = searchable_of(all);
    let mut schema = new_schema();
    proof {
        reveal_strlit("__aisearch_key");
    }
    let ghost fields = columns_of(all);
    add_key_field(&mut schema, KEY_FIELD_NAME);
    assert(schema_columns(schema) =~= fields.take(1));
    let mut searchable: Vec<SearchableField> = Vec::new();
    let mut i: usize = 0;
    assert(searchable_views(searchable@) =~= wanted.take(0));
    while i < columns.len()
        invariant
            all == column_views(columns@),
            wanted == searchable_of(all),
            columns_fit(all),
            i <= columns@.len(),
            fields == columns_of(all),
            schema_columns(schema) == fields.take(i + 1),
            searchable_views(searchable@) == wanted.take(i as int),
        decreases columns@.len() - i,
    {
        broadcast use lemma_searchable_views_push;

        let ghost before = searchable_views(searchable@);
        let path = columns[i].path.as_str();
        let analyzer = clone_opt_text(&columns[i].analyzer);
        assert(all[i as int] == columns@[i as int]@);
        proof {
            let known = schema_columns(schema);
            assert forall|k: int| 0 <= k < known.len() implies (#[trigger] known[k]).0
                != path@ by {
                assert(known[k] == fields[k]);
                if k > 0 {
                    assert(all[k - 1].path != all[i as int].path);
                }
            }
        }
        add_text_field(&mut schema, path, analyzer_tokenizer_name(opt_as_str(&analyzer)));
        let s = SearchableField { name: path.to_owned(), field: (i as u32) + 1, analyzer };
        searchable.push(s);
        assert(searchable_views(searchable@) == before.push(s@));
        assert(wanted[i as int] == s@);
        i += 1;
        assert(searchable_views(searchable@) =~= wanted.take(i as int));
        assert(schema_columns(schema) =~= fields.take(i + 1));
    }
    assert(wanted.take(i as int) =~= wanted);
    assert(fields.take(i + 1) =~= fields);
    (schema, searchable)
}

// ---------------------------------------------------------------------------
// Documents
// ---------------------------------------------------------------------------

/// The tokens of texts of a field.
pub open spec fn texts_tokens(list: Seq<Seq<char>>, s: SearchableV) -> Seq<ValueTokensV> {
    list.map_values(
        |t: Seq<char>|
            ValueTokensV {
                field: s.field as int,
                tokens: pipeline_tokens(t, tokenizer_name(s.analyzer)),
            },
    )
}

/// The tokens of a document's searchable fields.
pub open spec fn document_tokens(d: DocumentV, searchable: Seq<SearchableV>) -> Seq<ValueTokensV>
    decreases searchable.len(),
{
    if searchable.len() == 0 {
        seq![]
    } else {
        document_tokens(d, searchable.drop_last()) + texts_tokens(
            field_texts(d, searchable.last().name),
            searchable.last(),
        )
    }
}

/// A document as it is indexed.
pub open spec fn indexed(d: DocumentV, searchable: Seq<SearchableV>) -> IndexedV {
    IndexedV { key: d.key, texts: document_tokens(d, searchable) }
}

/// Indexed documents with more documents, each in place of those with its key.
pub open spec fn with_indexed(
    docs: Seq<IndexedV>,
    new: Seq<DocumentV>,
    searchable: Seq<SearchableV>,
) -> Seq<IndexedV>
    decreases new.len(),
{
    if new.len() == 0 {
        docs
    } else {
        let d = new.last();
        without_document(with_indexed(docs, new.drop_last(), searchable), d.key).push(
            indexed(d, searchable),
        )
    }
}

/// Indexed documents without those with some keys.
pub open spec fn without_indexed(docs: Seq<IndexedV>, keys: Seq<Seq<char>>) -> Seq<IndexedV>
    decreases keys.len(),
{
    if keys.len() == 0 {
        docs
    } else {
        without_document(without_indexed(docs, keys.drop_last()), keys.last())
    }
}

proof fn lemma_tokens_fit(d: DocumentV, searchable: Seq<SearchableV>, n: int)
    requires
        forall|i: int|
            0 <= i < searchable.len() ==> 0 < (#[trigger] searchable[i]).field < n,
    ensures
        forall|k: int|
            0 <= k < document_tokens(d, searchable).len() ==> 0 < (#[trigger] document_tokens(
                d,
                searchable,
            )[k]).field < n,
    decreases searchable.len(),
{
    if searchable.len() > 0 {
        let rest = searchable.drop_last();
        assert forall|i: int| 0 <= i < rest.len() implies 0 < (#[trigger] rest[i]).field < n by {
            assert(rest[i] == searchable[i]);
        }
        lemma_tokens_fit(d, rest, n);
        assert(searchable[searchable.len() - 1] == searchable.last());
        let first = document_tokens(d, rest);
        let more = texts_tokens(field_texts(d, searchable.last().name), searchable.last());
        assert forall|k: int| 0 <= k < document_tokens(d, searchable).len() implies 0 < (
        #[trigger] document_tokens(d, searchable)[k]).field < n by {
            if k < first.len() {
                assert(document_tokens(d, searchable)[k] == first[k]);
            } else {
                assert(document_tokens(d, searchable)[k] == more[k - first.len()]);
            }
        }
    }
}

fn index_document(d: &Document, searchable: &Vec<SearchableField>) -> (r: tantivy::TantivyDocument)
    requires
        forall|i: int|
            0 <= i < searchable@.len() ==> 0 < (#[trigger] searchable@[i]).field <= LAST_FIELD,
    ensures
        document_contents(r) == indexed(d@, searchable_views(searchable@)),
{
    let ghost all = searchable_views(searchable@);
    let mut out = new_document(d.key.as_str());
    let mut i: usize = 0;
    assert(document_contents(out).texts =~= document_tokens(d@, all.take(0)));
    while i < searchable.len()
        invariant
            all == searchable_views(searchable@),
            forall|k: int|
                0 <= k < searchable@.len() ==> 0 < (#[trigger] searchable@[k]).field <= LAST_FIELD,
            i <= searchable@.len(),
            document_contents(out).key == d@.key,
            document_contents(out).texts == document_tokens(d@, all.take(i as int)),
        decreases searchable@.len() - i,
    {
        let ghost start = document_contents(out).texts;
        assert(all.take(i + 1).drop_last() =~= all.take(i as int));
        let s = &searchable[i];
        assert(all[i as int] == s@);
        let found = document_texts(d, s.name.as_str());
        let ghost more = texts_tokens(texts(found@), s@);
        let mut k: usize = 0;
        assert(start + more.take(0) =~= start);
        while k < found.len()
            invariant
                0 < s.field <= LAST_FIELD,
                more == texts_tokens(texts(found@), s@),
                k <= found@.len(),
                document_contents(out).key == d@.key,
                document_contents(out).texts == start + more.take(k as int),
            decreases found@.len() - k,
        {
            let tokens = run_analyzer(found[k].as_str(), opt_as_str(&s.analyzer));
            add_tokens(&mut out, s.field, found[k].as_str(), tokens);
            assert(texts(found@)[k as int] == found@[k as int]@);
            k += 1;
            assert(document_contents(out).texts =~= start + more.take(k as int));
        }
        assert(more.take(k as int) =~= more);
        i += 1;
    }
    assert(all.take(i as int) =~= all);
    out
}

/// Why an index takes no changes.
pub open spec fn change_refused(name: Seq<char>) -> QueryErrorV {
    QueryErrorV::Engine(
        "search index "@ + debug_text(name) + " takes no changes since one has failed"@,
    )
}

/// Whether an index is another one after a change that gives documents, and what the
/// change tells: an index that takes no changes stays as it is; a change that fails is
/// told, and what it leaves is searched if the index still takes changes.
pub open spec fn changed_index(
    e: EngineIndexV,
    after: EngineIndexV,
    docs: Seq<IndexedV>,
    r: Result<(), QueryError>,
) -> bool {
    &&& after.name == e.name
    &&& after.searchable == e.searchable
    &&& !e.works ==> after == e && r is Err && r->Err_0@ == change_refused(e.name)
    &&& match r {
        Ok(_) => after.works && after.visible == docs && after.pending == docs,
        Err(x) => x@ is Engine && (e.works && after.works ==> after.pending == after.visible),
    }
}

impl EngineIndex {
    fn refused(&self) -> (r: QueryError)
        ensures
            r@ == change_refused(self@.name),
    {
        QueryError::Engine(
            cat3(
                "search index ",
                quoted(self.name.as_str()).as_str(),
                " takes no changes since one has failed",
            ),
        )
    }

    fn write_all(&mut self, documents: &Vec<Document>) -> (r: Result<(), String>)
        requires
            engine_index_wf(old(self)@),
            old(self)@.works,
        ensures
            final(self)@.columns == old(self)@.columns,
            final(self)@.tokenizers == old(self)@.tokenizers,
            final(self)@.name == old(self)@.name,
            final(self)@.searchable == old(self)@.searchable,
            final(self)@.works,
            writer_restorable(final(self)@.text),
            r is Ok ==> writer_works(final(self)@.text) && final(self)@.visible == with_indexed(
                old(self)@.pending,
                document_views(documents@),
                old(self)@.searchable,
            ) && final(self)@.pending == final(self)@.visible,
    {
        let ghost all = document_views(documents@);
        let ghost start = self@;
        let mut i: usize = 0;
        while i < documents.len()
            invariant
                all == document_views(documents@),
                start == old(self)@,
                engine_index_wf(start),
                self@.works,
                engine_index_wf(self@),
                self@.columns == start.columns,
                self@.tokenizers == start.tokenizers,
                self@.searchable == start.searchable,
                self@.name == start.name,
                i <= documents@.len(),
                self@.pending == with_indexed(start.pending, all.take(i as int), start.searchable),
            decreases documents@.len() - i,
        {
            assert(all.take(i + 1).drop_last() =~= all.take(i as int));
            assert(all[i as int] == documents@[i as int]@);
            delete_key(&mut self.text, documents[i].key.as_str());
            proof {
                let searchable = start.searchable;
                let n = index_columns(self.text).len() as int;
                assert forall|k: int| 0 <= k < self.searchable@.len() implies 0 < (
                #[trigger] self.searchable@[k]).field <= LAST_FIELD by {
                    assert(searchable[k] == self.searchable@[k]@);
                    assert(is_column(start, searchable[k]));
                }
                assert forall|k: int| 0 <= k < searchable.len() implies 0 < (
                #[trigger] searchable[k]).field < n by {
                    assert(is_column(start, searchable[k]));
                }
                lemma_tokens_fit(documents@[i as int]@, searchable, n);
            }
            let d = index_document(&documents[i], &self.searchable);
            add_document(&mut self.text, d)?;
            i += 1;
            assert forall|k: int| 0 <= k < self@.searchable.len() implies (
            #[trigger] self@.searchable[k]).field == k + 1 && is_column(
                self@,
                self@.searchable[k],
            ) by {
                assert(is_column(start, start.searchable[k]));
            }
        }
        assert(all.take(i as int) =~= all);
        publish(&mut self.text)
    }

    fn erase_all(&mut self, keys: &Vec<String>) -> (r: Result<(), String>)
        requires
            engine_index_wf(old(self)@),
            old(self)@.works,
        ensures
            final(self)@.columns == old(self)@.columns,
            final(self)@.tokenizers == old(self)@.tokenizers,
            final(self)@.name == old(self)@.name,
            final(self)@.searchable == old(self)@.searchable,
            final(self)@.works,
            writer_restorable(final(self)@.text),
            r is Ok ==> writer_works(final(self)@.text) && final(self)@.visible == without_indexed(
                old(self)@.pending,
                texts(keys@),
            ) && final(self)@.pending == final(self)@.visible,
    {
        let ghost all = texts(keys@);
        let ghost start = self@;
        let mut i: usize = 0;
        while i < keys.len()
            invariant
                all == texts(keys@),
                start == old(self)@,
                self@.works,
                writer_works(self.text),
                writer_restorable(self.text),
                self@.columns == start.columns,
                self@.tokenizers == start.tokenizers,
                self@.searchable == start.searchable,
                self@.name == start.name,
                i <= keys@.len(),
                self@.pending == without_indexed(start.pending, all.take(i as int)),
            decreases keys@.len() - i,
        {
            assert(all.take(i + 1).drop_last() =~= all.take(i as int));
            assert(all[i as int] == keys@[i as int]@);
            delete_key(&mut self.text, keys[i].as_str());
            i += 1;
        }
        assert(all.take(i as int) =~= all);
        publish(&mut self.text)
    }

    /// Takes back a change that failed, as far as it can be.
    fn take_back(&mut self)
        requires
            writer_restorable(old(self)@.text),
        ensures
            final(self)@.columns == old(self)@.columns,
            final(self)@.tokenizers == old(self)@.tokenizers,
            final(self)@.name == old(self)@.name,
            final(self)@.searchable == old(self)@.searchable,
            final(self)@.works ==> writer_works(final(self)@.text) && writer_restorable(
                final(self)@.text,
            ) && final(self)@.pending == final(self)@.visible,
    {
        self.works = restore(&mut self.text).is_ok();
    }

    fn put_all(&mut self, documents: &Vec<Document>) -> (r: Result<(), QueryError>)
        requires
            engine_index_wf(old(self)@),
        ensures
            engine_index_wf(final(self)@),
            changed_index(
                old(self)@,
                final(self)@,
                with_indexed(
                    old(self)@.pending,
                    document_views(documents@),
                    old(self)@.searchable,
                ),
                r,
            ),
    {
        if !self.works {
            return Err(self.refused());
        }
        let ghost start = self@;
        let r = match self.write_all(documents) {
            Ok(_) => Ok(()),
            Err(e) => {
                self.take_back();
                Err(QueryError::Engine(e))
            },
        };
        proof {
            lemma_same_columns(start, self@);
        }
        r
    }

    fn remove_all(&mut self, keys: &Vec<String>) -> (r: Result<(), QueryError>)
        requires
            engine_index_wf(old(self)@),
        ensures
            engine_index_wf(final(self)@),
            changed_index(
                old(self)@,
                final(self)@,
                without_indexed(old(self)@.pending, texts(keys@)),
                r,
            ),
    {
        if !self.works {
            return Err(self.refused());
        }
        let ghost start = self@;
        let r = match self.erase_all(keys) {
            Ok(_) => Ok(()),
            Err(e) => {
                self.take_back();
                Err(QueryError::Engine(e))
            },
        };
        proof {
            lemma_same_columns(start, self@);
        }
        r
    }
}

proof fn lemma_same_columns(e: EngineIndexV, after: EngineIndexV)
    requires
        engine_index_wf(e),
        after.columns == e.columns,
        after.tokenizers == e.tokenizers,
        after.searchable == e.searchable,
        after.columns == index_columns(after.text),
        after.tokenizers == index_tokenizers(after.text),
        after.works ==> writer_works(after.text) && writer_restorable(after.text),
    ensures
        engine_index_wf(after),
{
    assert forall|k: int| 0 <= k < after.searchable.len() implies (
    #[trigger] after.searchable[k]).field == k + 1 && is_column(after, after.searchable[k]) by {
        assert(is_column(e, e.searchable[k]));
    }
}

// ---------------------------------------------------------------------------
// The engine
// ---------------------------------------------------------------------------

/// The full-text search engine. Owns one full-text index per search index.
pub struct SearchEngine {
    indexes: KeyedList<EngineIndex>,
    /// Where a new index has the analyzers' tokenizers from. Who shares the manager
    /// can still add to it, so that what it holds is no part of the engine's value.
    tokenizers: tantivy::tokenizer::TokenizerManager,
}

impl View for SearchEngine {
    type V = Seq<EngineIndexV>;

    closed spec fn view(&self) -> Seq<EngineIndexV> {
        self.indexes@
    }
}

/// The index with a name.
pub open spec fn engine_index(s: Seq<EngineIndexV>, name: Seq<char>) -> Option<EngineIndexV> {
    keyed_find::<EngineIndex>(s, name)
}

/// Whether the indexes of an engine are well-formed, and in the order of their
/// names.
pub open spec fn engine_wf(s: Seq<EngineIndexV>) -> bool {
    keyed_sorted::<EngineIndex>(s) && forall|i: int|
        0 <= i < s.len() ==> engine_index_wf(#[trigger] s[i])
}

/// The index for a schema, without documents.
pub open spec fn empty_index(name: Seq<char>, fields: Seq<FieldV>, of: EngineIndexV) -> bool {
    let columns = columns_below(fields, seq![]);
    &&& of.name == name
    &&& of.searchable == searchable_of(columns)
    &&& of.columns == columns_of(columns)
    &&& forall|i: int|
        0 <= i < registered_names().len() ==> of.tokenizers.contains(
            #[trigger] registered_names()[i],
        )
    &&& of.visible == Seq::<IndexedV>::empty()
    &&& of.pending == Seq::<IndexedV>::empty()
    &&& of.works
}

/// The index of a name over a full-text index that takes changes.
pub open spec fn opened_index(
    name: Seq<char>,
    searchable: Seq<SearchableV>,
    t: TextIndex,
) -> EngineIndexV {
    EngineIndexV {
        name,
        columns: index_columns(t),
        tokenizers: index_tokenizers(t),
        searchable,
        visible: index_visible(t),
        pending: index_pending(t),
        works: true,
        text: t,
    }
}

/// The searchable fields that a search is restricted to.
pub open spec fn scope(searchable: Seq<SearchableV>, names: Option<Seq<Seq<char>>>) -> Seq<
    SearchableV,
> {
    match names {
        None => searchable,
        Some(n) => fields_in(searchable, n),
    }
}

pub open spec fn fields_in(searchable: Seq<SearchableV>, names: Seq<Seq<char>>) -> Seq<SearchableV>
    decreases searchable.len(),
{
    if searchable.len() == 0 {
        seq![]
    } else if names.contains(searchable.last().name) {
        fields_in(searchable.drop_last(), names).push(searchable.last())
    } else {
        fields_in(searchable.drop_last(), names)
    }
}

/// The names of searchable fields.
pub open spec fn searchable_names(fields: Seq<SearchableV>) -> Seq<Seq<char>> {
    fields.map_values(|s: SearchableV| s.name)
}

/// The places of searchable fields.
pub open spec fn field_places(fields: Seq<SearchableV>) -> Seq<u32> {
    fields.map_values(|s: SearchableV| s.field)
}

/// The boosts of the fields that have one.
pub open spec fn field_boosts(fields: Seq<SearchableV>, boosts: Seq<SearchFieldV>) -> Seq<(u32, u64)>
    decreases fields.len(),
{
    if fields.len() == 0 {
        seq![]
    } else {
        match keyed_find::<SearchField>(boosts, fields.last().name) {
            Some(f) => field_boosts(fields.drop_last(), boosts).push(
                (fields.last().field, f.boost),
            ),
            None => field_boosts(fields.drop_last(), boosts),
        }
    }
}

/// What a Lucene query text is put to the index as: it is parsed over the fields
/// with their boosts, regular expressions are allowed, and the mode gives the
/// operator between terms.
pub open spec fn lucene_setup(
    index: TextIndex,
    fields: Seq<SearchableV>,
    query: FullTextQueryV,
) -> ParserV {
    ParserV {
        index,
        fields: field_places(fields),
        all: query.mode == SearchMode::All,
        regexes: true,
        boosts: field_boosts(fields, query.boosts),
    }
}

/// How a Lucene query text is put to an index, or why it is not: it must not be
/// nested too deeply, and the parser must take it.
pub open spec fn lucene_clauses(text: Seq<char>, setup: ParserV) -> Result<
    Seq<(Occurs, TreeV)>,
    QueryErrorV,
> {
    if !nests_shallowly(text) {
        Err(QueryErrorV::InvalidQuery("The query is nested too deeply."@))
    } else {
        match parse_problem(setup, text) {
            Some(m) => Err(QueryErrorV::InvalidQuery(m)),
            None => Ok(seq![(Occurs::Must, TreeV::Parsed(setup, text))]),
        }
    }
}

/// How a query is put to the index, or why it is not.
pub open spec fn query_clauses(
    query: FullTextQueryV,
    fields: Seq<SearchableV>,
    index: TextIndex,
) -> Result<Seq<(Occurs, TreeV)>, QueryErrorV> {
    match query.lucene {
        None => Ok(simple_clauses(query, fields)),
        Some(text) => match parser_text(text, searchable_names(fields)) {
            Err(e) => Err(e),
            Ok(None) => Ok(everything()),
            Ok(Some(t)) => lucene_clauses(t, lucene_setup(index, fields, query)),
        },
    }
}

pub open spec fn scores_result(r: Result<KeyedList<KeyScore>, QueryError>) -> Result<
    Seq<KeyScoreV>,
    QueryErrorV,
> {
    match r {
        Ok(l) => Ok(l@),
        Err(e) => Err(e@),
    }
}

/// What a search gives: the scores of what the index finds for the query's
/// clauses. A query that does not match everything cannot match when there are no
/// searchable fields in scope; a query that cannot be put to the index, or that the
/// index refuses, is refused.
pub open spec fn search_gives(
    e: EngineIndexV,
    query: FullTextQueryV,
    r: Result<Seq<KeyScoreV>, QueryErrorV>,
) -> bool {
    let fields = scope(e.searchable, query.fields);
    if !query.matches_all() && fields.len() == 0 {
        r is Ok && r->Ok_0.len() == 0
    } else {
        match query_clauses(query, fields, e.text) {
            Err(x) => r is Err && r->Err_0 == x,
            Ok(clauses) => {
                match index_answer(e.text, clauses, MAX_MATCHES) {
                    Ok(hits) => r is Ok && r->Ok_0 == scores_of(hits) && found(
                        e.visible,
                        clauses,
                        MAX_MATCHES as int,
                        hits,
                    ),
                    Err(m) => r is Err && r->Err_0 == QueryErrorV::Engine(m),
                }
            },
        }
    }
}

fn fields_in_scope(searchable: &Vec<SearchableField>, names: &Option<Vec<String>>) -> (r: Vec<
    SearchableField,
>)
    ensures
        searchable_views(r@) == scope(searchable_views(searchable@), opt_texts(*names)),
{
    broadcast use lemma_searchable_views_push;

    let ghost all = searchable_views(searchable@);
    let mut out: Vec<SearchableField> = Vec::new();
    let mut i: usize = 0;
    assert(searchable_views(out@) =~= scope(all.take(0), opt_texts(*names)));
    while i < searchable.len()
        invariant
            all == searchable_views(searchable@),
            i <= searchable@.len(),
            searchable_views(out@) == scope(all.take(i as int), opt_texts(*names)),
        decreases searchable@.len() - i,
    {
        broadcast use lemma_searchable_views_push;

        let ghost before = searchable_views(out@);
        assert(all.take(i + 1).drop_last() =~= all.take(i as int));
        assert(all[i as int] == searchable@[i as int]@);
        let wanted = match names {
            None => true,
            Some(n) => holds_text(n, searchable[i].name.as_str()),
        };
        if wanted {
            let s = searchable[i].duplicate();
            out.push(s);
            assert(searchable_views(out@) == before.push(s@));
        }
        i += 1;
        assert(searchable_views(out@) =~= scope(all.take(i as int), opt_texts(*names)));
    }
    assert(all.take(i as int) =~= all);
    out
}

/// Builds the query for a `queryType=full` (Lucene) search text: parsed over
/// the in-scope searchable fields, with the request's field boosts applied and
/// the default operator between space-separated terms set by the search mode.
/// An empty text or `*` matches all documents.
fn build_lucene_query(
    index: &TextIndex,
    text: &str,
    fields: &Vec<SearchableField>,
    query: &FullTextQuery,
) -> (r: Result<QueryClauses, QueryError>)
    requires
        query.lucene is Some,
        query.lucene->Some_0@ == text@,
        forall|i: int|
            0 <= i < fields@.len() ==> (#[trigger] fields@[i]).field < index_columns(*index).len(),
    ensures
        match query_clauses(query@, searchable_views(fields@), *index) {
            Err(e) => r is Err && r->Err_0@ == e,
            Ok(clauses) => r is Ok && clauses_of(r->Ok_0) == clauses,
        },
{
    broadcast use lemma_texts_push;

    let ghost all = searchable_views(fields@);
    let mut names: Vec<String> = Vec::new();
    let mut places: Vec<u32> = Vec::new();
    let mut i: usize = 0;
    assert(texts(names@) =~= searchable_names(all).take(0));
    assert(places@ =~= field_places(all).take(0));
    while i < fields.len()
        invariant
            all == searchable_views(fields@),
            forall|k: int|
                0 <= k < fields@.len() ==> (#[trigger] fields@[k]).field < index_columns(
                    *index,
                ).len(),
            forall|k: int| 0 <= k < places@.len() ==> #[trigger] places@[k] < index_columns(*index).len(),
            i <= fields@.len(),
            texts(names@) == searchable_names(all).take(i as int),
            places@ == field_places(all).take(i as int),
        decreases fields@.len() - i,
    {
        broadcast use lemma_texts_push;

        assert(all[i as int] == fields@[i as int]@);
        let ghost before = texts(names@);
        let name = fields[i].name.clone();
        names.push(name);
        assert(texts(names@) == before.push(name@));
        places.push(fields[i].field);
        i += 1;
        assert(texts(names@) =~= searchable_names(all).take(i as int));
        assert(places@ =~= field_places(all).take(i as int));
    }
    assert(searchable_names(all).take(i as int) =~= searchable_names(all));
    assert(field_places(all).take(i as int) =~= field_places(all));
    let mut q = no_clauses();
    let expanded = match lucene_parser_text(text, &names) {
        Err(e) => return Err(e),
        Ok(None) => {
            push_all(&mut q);
            assert(clauses_of(q) =~= everything());
            return Ok(q);
        },
        Ok(Some(t)) => t,
    };
    let mut parser = parser_for(index, &places);
    if query.mode == SearchMode::All {
        demand_all(&mut parser);
    }
    allow_regexes(&mut parser);
    let ghost setup = parser_setup(parser);
    let mut k: usize = 0;
    assert(parser_setup(parser).boosts =~= field_boosts(all.take(0), query@.boosts));
    while k < fields.len()
        invariant
            all == searchable_views(fields@),
            k <= fields@.len(),
            parser_setup(parser) == (ParserV {
                boosts: field_boosts(all.take(k as int), query@.boosts),
                ..setup
            }),
        decreases fields@.len() - k,
    {
        assert(all.take(k + 1).drop_last() =~= all.take(k as int));
        assert(all[k as int] == fields@[k as int]@);
        if let Some(f) = query.boosts.get(fields[k].name.as_str()) {
            boost_field(&mut parser, fields[k].field, f.boost);
        }
        k += 1;
    }
    assert(all.take(k as int) =~= all);
    assert(parser_setup(parser) == lucene_setup(*index, all, query@));
    if !is_shallow(expanded.as_str()) {
        return Err(QueryError::InvalidQuery("The query is nested too deeply.".to_owned()));
    }
    match push_parsed(&mut q, &parser, expanded.as_str()) {
        Ok(_) => {
            assert(clauses_of(q) =~= seq![
                (Occurs::Must, TreeV::Parsed(parser_setup(parser), expanded@)),
            ]);
            Ok(q)
        },
        Err(e) => Err(QueryError::InvalidQuery(e)),
    }
}

proof fn lemma_fields_in(searchable: Seq<SearchableV>, names: Seq<Seq<char>>, n: int)
    requires
        forall|i: int| 0 <= i < searchable.len() ==> 0 < (#[trigger] searchable[i]).field < n,
    ensures
        forall|i: int|
            0 <= i < fields_in(searchable, names).len() ==> 0 < (#[trigger] fields_in(
                searchable,
                names,
            )[i]).field < n,
    decreases searchable.len(),
{
    if searchable.len() > 0 {
        let rest = searchable.drop_last();
        assert forall|i: int| 0 <= i < rest.len() implies 0 < (#[trigger] rest[i]).field < n by {
            assert(rest[i] == searchable[i]);
        }
        lemma_fields_in(rest, names, n);
        assert(searchable[searchable.len() - 1] == searchable.last());
    }
}

proof fn lemma_leaves_fit(
    clause: ClauseV,
    fields: Seq<SearchableV>,
    boosts: Seq<SearchFieldV>,
    synonyms: Seq<ExpansionV>,
    index: TextIndex,
)
    requires
        forall|i: int| 0 <= i < fields.len() ==> 0 < (#[trigger] fields[i]).field < index_columns(index).len(),
    ensures
        forall|i: int|
            0 <= i < clause_leaves(clause, fields, boosts, synonyms).len() ==> tree_fits(
                (#[trigger] clause_leaves(clause, fields, boosts, synonyms)[i]).1,
                index,
            ),
    decreases fields.len(),
{
    if fields.len() > 0 {
        let rest = fields.drop_last();
        assert forall|i: int| 0 <= i < rest.len() implies 0 < (#[trigger] rest[i]).field
            < index_columns(index).len() by {
            assert(rest[i] == fields[i]);
        }
        lemma_leaves_fit(clause, rest, boosts, synonyms, index);
        let s = fields.last();
        assert(fields[fields.len() - 1] == s);
        let first = clause_leaves(clause, rest, boosts, synonyms);
        let more = field_leaves(clause, s, boost_of(boosts, s.name), synonyms);
        let all = clause_leaves(clause, fields, boosts, synonyms);
        assert forall|i: int| 0 <= i < all.len() implies tree_fits((#[trigger] all[i]).1, index) by {
            if i < first.len() {
                assert(all[i] == first[i]);
            } else {
                assert(all[i] == more[i - first.len()]);
                lemma_leaf_fits(more[i - first.len()].1, index);
            }
        }
    }
}

proof fn lemma_leaf_fits(t: TreeV, index: TextIndex)
    ensures
        t matches TreeV::Boost(inner, boost) ==> tree_fits(t, index) == tree_fits(*inner, index),
{
}

proof fn lemma_clauses_fit(
    query: FullTextQueryV,
    fields: Seq<SearchableV>,
    index: TextIndex,
)
    requires
        forall|i: int| 0 <= i < fields.len() ==> 0 < (#[trigger] fields[i]).field < index_columns(index).len(),
    ensures
        query_clauses(query, fields, index) matches Ok(clauses) ==> tree_fits(
            TreeV::Group(clauses),
            index,
        ),
{
    if let Ok(clauses) = query_clauses(query, fields, index) {
        assert forall|i: int| 0 <= i < clauses.len() implies tree_fits(
            (#[trigger] clauses[i]).1,
            index,
        ) by {
            if query.lucene is None && !(clauses[i].1 is All) {
                let some = if query.required.len() == 0 {
                    everything()
                } else {
                    seq![]
                };
                let required = clause_trees(
                    query.required,
                    required_occurs(query.mode),
                    fields,
                    query.boosts,
                    query.synonyms,
                );
                let at = i - some.len();
                if at < required.len() {
                    assert(clauses[i] == required[at]);
                    lemma_leaves_fit(
                        query.required[at],
                        fields,
                        query.boosts,
                        query.synonyms,
                        index,
                    );
                } else {
                    let k = at - required.len();
                    assert(clauses[i] == clause_trees(
                        query.excluded,
                        Occurs::MustNot,
                        fields,
                        query.boosts,
                        query.synonyms,
                    )[k]);
                    lemma_leaves_fit(query.excluded[k], fields, query.boosts, query.synonyms, index);
                }
            }
        }
    }
}

proof fn lemma_engine_put(s: Seq<EngineIndexV>, e: EngineIndexV)
    requires
        engine_wf(s),
        engine_index_wf(e),
    ensures
        engine_wf(keyed_put::<EngineIndex>(s, e)),
{
    law_put_keeps_order::<EngineIndex>(s, e);
    let r = keyed_put::<EngineIndex>(s, e);
    assert forall|i: int| 0 <= i < r.len() implies engine_index_wf(#[trigger] r[i]) by {
        lemma_put_keys::<EngineIndex>(s, e, i);
    }
}

proof fn lemma_engine_remove(s: Seq<EngineIndexV>, name: Seq<char>)
    requires
        engine_wf(s),
    ensures
        engine_wf(keyed_remove::<EngineIndex>(s, name)),
{
    law_remove_keeps_order::<EngineIndex>(s, name);
    let r = keyed_remove::<EngineIndex>(s, name);
    assert forall|i: int| 0 <= i < r.len() implies engine_index_wf(#[trigger] r[i]) by {
        lemma_remove_items::<EngineIndex>(s, name, i);
    }
}

proof fn lemma_engine_replace(s: Seq<EngineIndexV>, name: Seq<char>, e: EngineIndexV)
    requires
        engine_wf(s),
        engine_index_wf(e),
        e.name == name,
    ensures
        engine_wf(keyed_replace::<EngineIndex>(s, name, e)),
{
    law_replace_keeps_order::<EngineIndex>(s, name, e);
    lemma_replace_keys::<EngineIndex>(s, name, e);
}

proof fn lemma_engine_found(s: Seq<EngineIndexV>, name: Seq<char>)
    requires
        engine_wf(s),
    ensures
        engine_index(s, name) matches Some(e) ==> engine_index_wf(e) && e.name == name,
{
    law_found_item_has_key::<EngineIndex>(s, name);
}

/// The tokenizers of an index: the index's own ones, and those of the analyzers, as
/// far as the manager has them. The name of one that it lacks is given.
fn gather_tokenizers(from: &tantivy::tokenizer::TokenizerManager) -> (r: Result<
    tantivy::tokenizer::TokenizerManager,
    &'static str,
>)
    ensures
        r matches Ok(m) ==> tokenizer_names(m).contains("raw"@) && forall|i: int|
            0 <= i < registered_names().len() ==> tokenizer_names(m).contains(
                #[trigger] registered_names()[i],
            ),
{
    let names = registered_tokenizers();
    let ghost all = registered_names();
    let mut m = own_tokenizers();
    let mut i: usize = 0;
    while i < names.len()
        invariant
            all == registered_names(),
            names@.map_values(|s: &'static str| s@) == all,
            i <= names@.len(),
            tokenizer_names(m).contains("raw"@),
            forall|k: int| 0 <= k < i ==> tokenizer_names(m).contains(#[trigger] all[k]),
        decreases names@.len() - i,
    {
        assert(all[i as int] == names@[i as int]@);
        proof {
            lemma_registered_name_is_not_raw(i as int);
        }
        if !add_tokenizer(&mut m, from, names[i]) {
            return Err(names[i]);
        }
        i += 1;
    }
    assert(all.len() == names@.len());
    Ok(m)
}

impl SearchEngine {
    /// An engine without indexes. The tokenizers serve query texts, by the names
    /// that the fields' analyzers have.
    pub fn new(tokenizers: tantivy::tokenizer::TokenizerManager) -> (r: SearchEngine)
        ensures
            r@ == Seq::<EngineIndexV>::empty(),
            engine_wf(r@),
    {
        SearchEngine { indexes: KeyedList::new(), tokenizers }
    }

    /// Builds and registers a full-text index for `name`, derived from the index
    /// schema: each searchable field has the tokenizer of its declared analyzer, and
    /// every analyzer's tokenizer is registered for query texts.
    pub fn create_index(&mut self, name: &str, fields: &Vec<FieldDefinition>) -> (r: Result<
        (),
        QueryError,
    >)
        requires
            engine_wf(old(self)@),
            engine_schema(field_views(fields@)),
        ensures
            engine_wf(final(self)@),
            match r {
                Ok(_) => engine_index(old(self)@, name@) is None && exists|e: EngineIndexV|
                    empty_index(name@, field_views(fields@), e) && final(self)@
                        == #[trigger] keyed_put::<EngineIndex>(old(self)@, e),
                Err(e) => final(self)@ == old(self)@ && e@ is Engine,
            },
            engine_index(old(self)@, name@) is Some ==> r is Err,
    {
        let columns = searchable_columns(fields);
        let (schema, searchable) = build_schema(&columns);
        let opened = match gather_tokenizers(&self.tokenizers) {
            Ok(m) => open_index(schema, m, WRITER_HEAP_BYTES),
            Err(missing) => Err(cat3("tokenizer ", quoted(missing).as_str(), " is missing")),
        };
        proof {
            if opened is Ok {
                let t = opened->Ok_0;
                let wanted = column_views(columns@);
                let e = opened_index(name@, searchable_views(searchable@), t);
                assert(empty_index(name@, field_views(fields@), e));
                assert forall|i: int| 0 <= i < e.searchable.len() implies (
                #[trigger] e.searchable[i]).field == i + 1 && is_column(e, e.searchable[i]) by {
                    assert(e.columns[i + 1] == columns_of(wanted)[i + 1]);
                    law_every_analyzer_is_registered(wanted[i].analyzer);
                    let k = registered_names().index_of(tokenizer_name(wanted[i].analyzer));
                    assert(registered_names()[k] == tokenizer_name(wanted[i].analyzer));
                }
            }
        }
        self.add_opened(name, searchable, opened)
    }

    /// Registers a full-text index that was opened for `name`, or tells why it was
    /// not.
    pub fn add_opened(
        &mut self,
        name: &str,
        searchable: Vec<SearchableField>,
        opened: Result<TextIndex, String>,
    ) -> (r: Result<(), QueryError>)
        requires
            engine_wf(old(self)@),
            opened matches Ok(t) ==> engine_index_wf(
                opened_index(name@, searchable_views(searchable@), t),
            ),
        ensures
            engine_wf(final(self)@),
            match opened {
                Err(m) => r is Err && r->Err_0@ == QueryErrorV::Engine(m@) && final(self)@
                    == old(self)@,
                Ok(t) => if engine_index(old(self)@, name@) is Some {
                    r is Err && r->Err_0@ == QueryErrorV::Engine(
                        "search index "@ + debug_text(name@) + " already exists"@,
                    ) && final(self)@ == old(self)@
                } else {
                    r is Ok && final(self)@ == keyed_put::<EngineIndex>(
                        old(self)@,
                        opened_index(name@, searchable_views(searchable@), t),
                    )
                },
            },
    {
        let text = match opened {
            Ok(t) => t,
            Err(m) => return Err(QueryError::Engine(m)),
        };
        if self.indexes.contains(name) {
            return Err(
                QueryError::Engine(cat3("search index ", quoted(name).as_str(), " already exists")),
            );
        }
        let entry = EngineIndex { name: name.to_owned(), text, searchable, works: true };
        let ghost e = entry@;
        let ghost before = self@;
        self.indexes.put(entry);
        proof {
            lemma_engine_put(before, e);
        }
        Ok(())
    }

    /// Removes the full-text index for `name`, if present.
    pub fn delete_index(&mut self, name: &str)
        requires
            engine_wf(old(self)@),
        ensures
            engine_wf(final(self)@),
            final(self)@ == keyed_remove::<EngineIndex>(old(self)@, name@),
    {
        let ghost before = self@;
        self.indexes.remove(name);
        proof {
            lemma_engine_remove(before, name@);
        }
    }

    /// Indexes `documents` into the full-text index for `name`, replacing any
    /// previously indexed document with the same key, so the documents are
    /// immediately searchable.
    pub fn index_documents(&mut self, name: &str, documents: &Vec<Document>) -> (r: Result<
        (),
        QueryError,
    >)
        requires
            engine_wf(old(self)@),
        ensures
            engine_wf(final(self)@),
            match engine_index(old(self)@, name@) {
                None => r is Err && r->Err_0@ == QueryErrorV::IndexNotFound(name@) && final(self)@
                    == old(self)@,
                Some(e) => {
                    exists|after: EngineIndexV|
                        final(self)@ == #[trigger] keyed_replace::<EngineIndex>(
                            old(self)@,
                            name@,
                            after,
                        ) && changed_index(
                            e,
                            after,
                            with_indexed(e.pending, document_views(documents@), e.searchable),
                            r,
                        )
                },
            },
    {
        let ghost before = self@;
        if !self.indexes.contains(name) {
            return Err(QueryError::IndexNotFound(name.to_owned()));
        }
        proof {
            lemma_engine_found(before, name@);
        }
        let mut r: Result<(), QueryError> = Ok(());
        let ghost mut after: EngineIndexV = arbitrary();
        if let Some(e) = self.indexes.get_mut(name) {
            r = e.put_all(documents);
            proof {
                after = e@;
            }
        }
        proof {
            assert(self@ == keyed_replace::<EngineIndex>(before, name@, after));
            lemma_engine_replace(before, name@, after);
        }
        r
    }

    /// Removes the documents with the given keys from the full-text index for
    /// `name`. The deletions are immediately visible.
    pub fn delete_documents(&mut self, name: &str, keys: &Vec<String>) -> (r: Result<
        (),
        QueryError,
    >)
        requires
            engine_wf(old(self)@),
        ensures
            engine_wf(final(self)@),
            keys@.len() == 0 ==> r is Ok && final(self)@ == old(self)@,
            keys@.len() > 0 ==> match engine_index(old(self)@, name@) {
                None => r is Err && r->Err_0@ == QueryErrorV::IndexNotFound(name@) && final(self)@
                    == old(self)@,
                Some(e) => {
                    exists|after: EngineIndexV|
                        final(self)@ == #[trigger] keyed_replace::<EngineIndex>(
                            old(self)@,
                            name@,
                            after,
                        ) && changed_index(
                            e,
                            after,
                            without_indexed(e.pending, texts(keys@)),
                            r,
                        )
                },
            },
    {
        if keys.len() == 0 {
            return Ok(());
        }
        let ghost before = self@;
        if !self.indexes.contains(name) {
            return Err(QueryError::IndexNotFound(name.to_owned()));
        }
        proof {
            lemma_engine_found(before, name@);
        }
        let mut r: Result<(), QueryError> = Ok(());
        let ghost mut after: EngineIndexV = arbitrary();
        if let Some(e) = self.indexes.get_mut(name) {
            r = e.remove_all(keys);
            proof {
                after = e@;
            }
        }
        proof {
            assert(self@ == keyed_replace::<EngineIndex>(before, name@, after));
            lemma_engine_replace(before, name@, after);
        }
        r
    }

    /// Runs a full-text search, giving the matching document keys with their
    /// relevance scores for ranking: those that the index gives, the best of a key.
    pub fn search(&self, name: &str, query: &FullTextQuery) -> (r: Result<
        KeyedList<KeyScore>,
        QueryError,
    >)
        requires
            engine_wf(self@),
        ensures
            match engine_index(self@, name@) {
                None => r is Err && r->Err_0@ == QueryErrorV::IndexNotFound(name@),
                Some(e) => search_gives(e, query@, scores_result(r)),
            },
    {
        let e = match self.indexes.get(name) {
            Some(e) => e,
            None => return Err(QueryError::IndexNotFound(name.to_owned())),
        };
        proof {
            lemma_engine_found(self@, name@);
        }
        let fields = fields_in_scope(&e.searchable, &query.fields);
        let ghost all = searchable_views(fields@);
        let ghost n = index_columns(e.text).len() as int;
        proof {
            assert forall|i: int| 0 <= i < e@.searchable.len() implies 0 < (
            #[trigger] e@.searchable[i]).field < n by {
                assert(is_column(e@, e@.searchable[i]));
            }
            if let Some(names) = opt_texts(query.fields) {
                lemma_fields_in(e@.searchable, names, n);
            }
            assert forall|i: int| 0 <= i < fields@.len() implies 0 < (
            #[trigger] fields@[i]).field < n by {
                assert(all[i] == fields@[i]@);
            }
            lemma_clauses_fit(query@, all, e.text);
        }
        if !query.is_match_all() && fields.len() == 0 {
            return Ok(KeyedList::new());
        }
        let q = match &query.lucene {
            Some(text) => match build_lucene_query(&e.text, text.as_str(), &fields, query) {
                Ok(q) => q,
                Err(x) => return Err(x),
            },
            None => build_query(query, &fields),
        };
        let hits = match search_index(&e.text, q, MAX_MATCHES) {
            Ok(h) => h,
            Err(x) => return Err(QueryError::Engine(x)),
        };
        let scores = collect_scores(&hits);
        assert(scores@ == scores_of(hit_views(hits@)));
        Ok(scores)
    }

    /// Clears all indexes.
    pub fn reset(&mut self)
        ensures
            final(self)@ == Seq::<EngineIndexV>::empty(),
            engine_wf(final(self)@),
    {
        self.indexes.clear();
    }
}

// ---------------------------------------------------------------------------
// Laws
// ---------------------------------------------------------------------------

/// The analyzer that a field declares serves both indexing and querying: the field's
/// texts are indexed by the tokens of its tokenizer, the terms and phrases of a simple
/// query are put to the field by the tokens of the same tokenizer, and it is the
/// tokenizer by which the index itself takes apart query texts for the field.
pub proof fn law_analyzer_serves_both(
    e: EngineIndexV,
    i: int,
    text: Seq<char>,
    boost: u64,
)
    requires
        engine_index_wf(e),
        0 <= i < e.searchable.len(),
        text.len() > 0,
    ensures
        ({
            let s = e.searchable[i];
            let tokenizer = tokenizer_name(s.analyzer);
            let tokens = pipeline_tokens(text, tokenizer);
            let leaves = field_leaves(ClauseV::Term(text), s, boost, seq![]);
            &&& index_columns(e.text)[s.field as int] == (s.name, tokenizer)
            &&& index_tokenizers(e.text).contains(tokenizer)
            &&& texts_tokens(seq![text], s) == seq![ValueTokensV { field: s.field as int, tokens }]
            &&& leaves.len() == tokens.len()
            &&& forall|k: int|
                0 <= k < tokens.len() ==> #[trigger] leaves[k] == (
                    Occurs::Should,
                    boosted(TreeV::Term(s.field as int, tokens[k].token), boost),
                )
            &&& tokens.len() >= 2 ==> field_leaves(ClauseV::Phrase(text), s, boost, seq![]) == seq![
                (
                    Occurs::Should,
                    boosted(
                        TreeV::Phrase(
                            s.field as int,
                            tokens.map_values(|t: AnalyzeTokenV| t.token),
                        ),
                        boost,
                    ),
                ),
            ]
        }),
{
    let s = e.searchable[i];
    assert(is_column(e, s));
    assert(texts_tokens(seq![text], s) =~= seq![
        ValueTokensV {
            field: s.field as int,
            tokens: pipeline_tokens(text, tokenizer_name(s.analyzer)),
        },
    ]);
    assert(all_terms(added_terms(seq![], text), s.analyzer) =~= seq![]);
}

/// A fuzzy term matches a document that has, in the field, a token within the distance
/// of the lowercase term, whatever the boost.
pub proof fn law_fuzzy_term_meaning(
    term: Seq<char>,
    distance: u8,
    s: SearchableV,
    boost: u64,
    synonyms: Seq<ExpansionV>,
    d: IndexedV,
)
    ensures
        ({
            let leaves = field_leaves(
                ClauseV::FuzzyTerm { term, distance },
                s,
                boost,
                synonyms,
            );
            leaves.len() == 1 && tree_matches(leaves[0].1, d) == exists|i: int, k: int|
                0 <= i < d.texts.len() && d.texts[i].field == s.field && 0 <= k
                    < d.texts[i].tokens.len() && fits_token(d.texts[i].tokens[k].token)
                    && within_edits(
                    lowercase(term),
                    (#[trigger] d.texts[i].tokens[k]).token,
                    distance as int,
                )
        }),
{
    let text = lowercase(term);
    let tree = TreeV::Fuzzy(s.field as int, text, distance);
    let wanted = |t: Seq<char>| within_edits(text, t, distance as int);
    assert(tree_matches(tree, d) == has_token(d, s.field as int, wanted)) by {
        assert forall|t: Seq<char>| #[trigger] wanted(t) == within_edits(
            text,
            t,
            distance as int,
        ) by {}
    }
}

/// A phrase of several tokens matches a document that has, in a text of the field, the
/// tokens one behind the other, whatever the boost.
pub proof fn law_phrase_meaning(
    phrase: Seq<char>,
    s: SearchableV,
    boost: u64,
    synonyms: Seq<ExpansionV>,
    d: IndexedV,
)
    requires
        terms_of(phrase, s.analyzer).len() >= 2,
    ensures
        ({
            let leaves = field_leaves(ClauseV::Phrase(phrase), s, boost, synonyms);
            leaves.len() == 1 && tree_matches(leaves[0].1, d) == exists|i: int, start: int|
                0 <= i < d.texts.len() && (#[trigger] d.texts[i]).field == s.field
                    && #[trigger] phrase_at(
                    d.texts[i].tokens,
                    terms_of(phrase, s.analyzer),
                    start,
                )
        }),
{
    assert(tree_matches(TreeV::Phrase(s.field as int, terms_of(phrase, s.analyzer)), d)
        == holds_phrase(d, s.field as int, terms_of(phrase, s.analyzer)));
}

/// The characters of texts, and two more for each.
pub open spec fn texts_size(list: Seq<Seq<char>>) -> int
    decreases list.len(),
{
    if list.len() == 0 {
        0
    } else {
        texts_size(list.drop_last()) + list.last().len() + 2
    }
}

/// The characters of the texts that a document has in fields, and two more for each
/// text.
pub open spec fn document_size(d: DocumentV, searchable: Seq<SearchableV>) -> int
    decreases searchable.len(),
{
    if searchable.len() == 0 {
        0
    } else {
        document_size(d, searchable.drop_last()) + texts_size(
            field_texts(d, searchable.last().name),
        )
    }
}

proof fn lemma_positions_joined(a: Seq<ValueTokensV>, b: Seq<ValueTokensV>)
    ensures
        positions_of(a + b) == positions_of(a) + positions_of(b),
    decreases b.len(),
{
    if b.len() == 0 {
        assert(a + b =~= a);
    } else {
        lemma_positions_joined(a, b.drop_last());
        assert((a + b).drop_last() =~= a + b.drop_last());
        assert((a + b).last() == b.last());
    }
}

proof fn lemma_size_nonnegative(d: DocumentV, searchable: Seq<SearchableV>)
    ensures
        document_size(d, searchable) >= 0,
    decreases searchable.len(),
{
    if searchable.len() > 0 {
        lemma_size_nonnegative(d, searchable.drop_last());
        lemma_texts_size_nonnegative(field_texts(d, searchable.last().name));
    }
}

proof fn lemma_texts_size_nonnegative(list: Seq<Seq<char>>)
    ensures
        texts_size(list) >= 0,
    decreases list.len(),
{
    if list.len() > 0 {
        lemma_texts_size_nonnegative(list.drop_last());
    }
}

proof fn lemma_texts_positions(list: Seq<Seq<char>>, s: SearchableV)
    requires
        texts_size(list) <= MAX_POSITIONS,
    ensures
        positions_of(texts_tokens(list, s)) <= texts_size(list),
        forall|i: int|
            0 <= i < list.len() ==> positions_rise(
                (#[trigger] texts_tokens(list, s)[i]).tokens,
                MAX_POSITIONS as int,
            ),
    decreases list.len(),
{
    if list.len() > 0 {
        let rest = list.drop_last();
        let all = texts_tokens(list, s);
        lemma_texts_size_nonnegative(rest);
        lemma_texts_positions(rest, s);
        assert(all.drop_last() =~= texts_tokens(rest, s));
        let name = tokenizer_name(s.analyzer);
        law_tokens_stand_in_order(list.last(), name);
        assert(all.last().tokens == pipeline_tokens(list.last(), name));
        assert forall|i: int| 0 <= i < list.len() implies positions_rise(
            (#[trigger] all[i]).tokens,
            MAX_POSITIONS as int,
        ) by {
            if i < rest.len() {
                assert(all[i] == texts_tokens(rest, s)[i]);
            } else {
                assert(all[i] == all.last());
            }
        }
    }
}

proof fn lemma_document_positions(d: DocumentV, searchable: Seq<SearchableV>)
    requires
        document_size(d, searchable) <= MAX_POSITIONS,
    ensures
        positions_of(document_tokens(d, searchable)) <= document_size(d, searchable),
        forall|i: int|
            0 <= i < document_tokens(d, searchable).len() ==> positions_rise(
                (#[trigger] document_tokens(d, searchable)[i]).tokens,
                MAX_POSITIONS as int,
            ),
    decreases searchable.len(),
{
    if searchable.len() > 0 {
        let list = field_texts(d, searchable.last().name);
        let first = document_tokens(d, searchable.drop_last());
        let more = texts_tokens(list, searchable.last());
        lemma_texts_size_nonnegative(list);
        lemma_size_nonnegative(d, searchable.drop_last());
        lemma_document_positions(d, searchable.drop_last());
        lemma_texts_positions(list, searchable.last());
        lemma_positions_joined(first, more);
        let all = document_tokens(d, searchable);
        assert forall|i: int| 0 <= i < all.len() implies positions_rise(
            (#[trigger] all[i]).tokens,
            MAX_POSITIONS as int,
        ) by {
            if i < first.len() {
                assert(all[i] == first[i]);
            } else {
                assert(all[i] == more[i - first.len()]);
            }
        }
    }
}

/// The positions of a document as it is indexed are those of its tokens, unless its
/// searchable texts hold more characters than an index has positions.
pub proof fn law_indexed_positions_fit(d: DocumentV, searchable: Seq<SearchableV>)
    requires
        document_size(d, searchable) <= MAX_POSITIONS,
    ensures
        positions_fit(indexed(d, searchable)),
{
    lemma_document_positions(d, searchable);
    let x = indexed(d, searchable);
    assert forall|i: int, j: int, k: int|
        0 <= i < x.texts.len() && 0 <= j <= k < x.texts[i].tokens.len() implies (
    #[trigger] x.texts[i].tokens[j]).position <= (#[trigger] x.texts[i].tokens[k]).position by {
        assert(positions_rise(x.texts[i].tokens, MAX_POSITIONS as int));
    }
}

/// A query without clauses matches every document.
pub proof fn law_match_all_matches_everything(
    query: FullTextQueryV,
    fields: Seq<SearchableV>,
    index: TextIndex,
    d: IndexedV,
)
    requires
        query.matches_all(),
    ensures
        query_clauses(query, fields, index) is Ok,
        tree_matches(TreeV::Group(query_clauses(query, fields, index)->Ok_0), d),
{
    let c = everything();
    assert(c[0].0 is Must);
    assert forall|i: int| 0 <= i < c.len() && (#[trigger] c[i]).0 is Must implies tree_matches(
        c[i].1,
        d,
    ) by {
        assert(c[i].1 is All);
    }
}

/// A simple query with clauses matches a document where all of the required
/// clauses match (mode all) or one of them does (mode any), and none of the
/// excluded clauses does. Without required clauses only the excluded ones
/// count.
pub proof fn law_simple_query_meaning(
    query: FullTextQueryV,
    fields: Seq<SearchableV>,
    d: IndexedV,
)
    requires
        query.required.len() > 0 || query.excluded.len() > 0,
    ensures
        tree_matches(TreeV::Group(simple_clauses(query, fields)), d) == {
            &&& query.required.len() == 0 || (query.mode is All && forall|i: int|
                0 <= i < query.required.len() ==> tree_matches(
                    clause_tree(#[trigger] query.required[i], fields, query.boosts, query.synonyms),
                    d,
                )) || (query.mode is Any && exists|i: int|
                0 <= i < query.required.len() && tree_matches(
                    clause_tree(#[trigger] query.required[i], fields, query.boosts, query.synonyms),
                    d,
                ))
            &&& forall|i: int|
                0 <= i < query.excluded.len() ==> !tree_matches(
                    clause_tree(#[trigger] query.excluded[i], fields, query.boosts, query.synonyms),
                    d,
                )
        },
{
    let some = if query.required.len() == 0 {
        everything()
    } else {
        seq![]
    };
    let occurs = required_occurs(query.mode);
    let required = clause_trees(query.required, occurs, fields, query.boosts, query.synonyms);
    let excluded = clause_trees(
        query.excluded,
        Occurs::MustNot,
        fields,
        query.boosts,
        query.synonyms,
    );
    let c = simple_clauses(query, fields);
    let a = some.len() as int;
    let b = a + required.len();
    assert(c == some + required + excluded);
    assert(c.len() == b + excluded.len());
    assert forall|i: int| 0 <= i < a implies #[trigger] c[i] == (Occurs::Must, TreeV::All) by {}
    assert forall|i: int| 0 <= i < query.required.len() implies #[trigger] c[a + i] == (
        occurs,
        clause_tree(query.required[i], fields, query.boosts, query.synonyms),
    ) by {
        assert(c[a + i] == required[i]);
    }
    assert forall|i: int| 0 <= i < query.excluded.len() implies #[trigger] c[b + i] == (
        Occurs::MustNot,
        clause_tree(query.excluded[i], fields, query.boosts, query.synonyms),
    ) by {
        assert(c[b + i] == excluded[i]);
    }
    let whole = tree_matches(TreeV::Group(c), d);
    let clean = forall|i: int|
        0 <= i < query.excluded.len() ==> !tree_matches(
            clause_tree(#[trigger] query.excluded[i], fields, query.boosts, query.synonyms),
            d,
        );
    let every = forall|i: int|
        0 <= i < query.required.len() ==> tree_matches(
            clause_tree(#[trigger] query.required[i], fields, query.boosts, query.synonyms),
            d,
        );
    let any = exists|i: int|
        0 <= i < query.required.len() && tree_matches(
            clause_tree(#[trigger] query.required[i], fields, query.boosts, query.synonyms),
            d,
        );
    let right = (query.required.len() == 0 || (query.mode is All && every) || (query.mode is Any
        && any)) && clean;
    if whole {
        assert forall|i: int| 0 <= i < query.excluded.len() implies !tree_matches(
            clause_tree(#[trigger] query.excluded[i], fields, query.boosts, query.synonyms),
            d,
        ) by {
            assert(c[b + i].0 is MustNot);
        }
        if query.required.len() > 0 {
            if query.mode is All {
                assert forall|i: int| 0 <= i < query.required.len() implies tree_matches(
                    clause_tree(#[trigger] query.required[i], fields, query.boosts, query.synonyms),
                    d,
                ) by {
                    assert(c[a + i].0 is Must);
                }
            } else {
                assert forall|i: int| 0 <= i < c.len() implies !((#[trigger] c[i]).0 is Must) by {
                    if i < b {
                        assert(c[a + (i - a)] == required[i - a]);
                    } else {
                        assert(c[b + (i - b)] == excluded[i - b]);
                    }
                }
                let i = choose|i: int|
                    0 <= i < c.len() && (#[trigger] c[i]).0 is Should && tree_matches(c[i].1, d);
                if i >= b {
                    assert(c[b + (i - b)] == excluded[i - b]);
                }
                assert(c[a + (i - a)] == required[i - a]);
                assert(tree_matches(
                    clause_tree(query.required[i - a], fields, query.boosts, query.synonyms),
                    d,
                ));
            }
        }
    }
    if right {
        assert forall|i: int| 0 <= i < c.len() && (#[trigger] c[i]).0 is Must implies tree_matches(
            c[i].1,
            d,
        ) by {
            if a <= i < b {
                assert(c[a + (i - a)] == required[i - a]);
                let x = query.required[i - a];
            } else if i >= b {
                assert(c[b + (i - b)] == excluded[i - b]);
            }
        }
        assert forall|i: int| 0 <= i < c.len() && (#[trigger] c[i]).0 is MustNot implies !tree_matches(
            c[i].1,
            d,
        ) by {
            if a <= i < b {
                assert(c[a + (i - a)] == required[i - a]);
            } else if i >= b {
                assert(c[b + (i - b)] == excluded[i - b]);
                let x = query.excluded[i - b];
            }
        }
        if query.required.len() == 0 {
            assert(c[0].0 is Must);
        } else if query.mode is All {
            assert(c[a + 0] == required[0]);
            assert(c[a + 0].0 is Must);
        } else {
            let i = choose|i: int|
                0 <= i < query.required.len() && tree_matches(
                    clause_tree(#[trigger] query.required[i], fields, query.boosts, query.synonyms),
                    d,
                );
            assert(c[a + i] == required[i]);
            assert(c[a + i].0 is Should && tree_matches(c[a + i].1, d));
        }
    }
}

/// An indexed document takes the place of what had its key. Keys that are too
/// long to be tokens are left out.
pub proof fn law_indexing_replaces(
    docs: Seq<IndexedV>,
    d: DocumentV,
    searchable: Seq<SearchableV>,
)
    requires
        fits_token(d.key),
    ensures
        with_indexed(docs, seq![d], searchable).contains(indexed(d, searchable)),
        forall|i: int|
            0 <= i < with_indexed(docs, seq![d], searchable).len() && (#[trigger] with_indexed(
                docs,
                seq![d],
                searchable,
            )[i]).key == d.key ==> with_indexed(docs, seq![d], searchable)[i] == indexed(
                d,
                searchable,
            ),
{
    let new = seq![d];
    assert(new.drop_last() =~= Seq::<DocumentV>::empty());
    assert(with_indexed(docs, new.drop_last(), searchable) == docs);
    let rest = without_document(docs, d.key);
    let r = with_indexed(docs, new, searchable);
    assert(r == rest.push(indexed(d, searchable)));
    assert(r[r.len() - 1] == indexed(d, searchable));
    law_deleted_document_is_gone(docs, d.key);
    assert forall|i: int| 0 <= i < r.len() && (#[trigger] r[i]).key == d.key implies r[i]
        == indexed(d, searchable) by {
        if i < rest.len() {
            assert(r[i] == rest[i]);
        }
    }
}

/// After a deletion no document has the key, and the documents with other keys
/// are as before. Keys that are too long to be tokens are left out.
pub proof fn law_deleted_document_is_gone(docs: Seq<IndexedV>, key: Seq<char>)
    requires
        fits_token(key),
    ensures
        forall|i: int|
            0 <= i < without_document(docs, key).len() ==> (#[trigger] without_document(
                docs,
                key,
            )[i]).key != key,
        forall|d: IndexedV|
            d.key != key ==> (#[trigger] docs.contains(d) <==> without_document(
                docs,
                key,
            ).contains(d)),
{
    let keep = |d: IndexedV| !(d.key == key && fits_token(key));
    let r = docs.filter(keep);
    assert(r == without_document(docs, key));
    assert forall|d: IndexedV| d.key != key implies (#[trigger] docs.contains(d) <==> r.contains(
        d,
    )) by {
        if docs.contains(d) {
            let i = choose|i: int| 0 <= i < docs.len() && docs[i] == d;
            docs.lemma_filter_contains(keep, i);
        }
        if r.contains(d) {
            docs.lemma_filter_contains_rev(keep, d);
        }
    }
    assert forall|i: int| 0 <= i < r.len() implies (#[trigger] r[i]).key != key by {
        docs.lemma_filter_pred(keep, i);
    }
}

} // verus!
