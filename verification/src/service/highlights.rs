//! The highlights of documents and pages, and the words of field values.
use crate::json::{Json, JsonV, group_json, ref_values, values};
use crate::query::analyzers::{analyze_with, opt_str};
use crate::query::lucene::{lucene_query_terms, terms_from};
use crate::query::plan::{all_terms, opt_as_str};
use crate::query::simple::{Clause, ClauseV, FullTextQuery, FullTextQueryV};
use crate::service::highlight::{MAX_HIGHLIGHT_FRAGMENTS, fragments_of, highlight_fragments};
use crate::service::ordering::{Scored, ScoredV, scored_views};
use crate::service::types::{SearchQuery, SearchQueryV};
use crate::storage::definition::{FieldV, field_by_path};
use crate::storage::document::{Document, DocumentV, path_values};
use crate::storage::index::IndexDefinition;
use crate::storage::keyed::{Keyed, KeyedList, keyed_put};
use crate::text::{extend_texts, lemma_texts_push, split_words, texts, words};
use vstd::prelude::*;

verus! {

/// The highlighted fragments of a field.
#[derive(Debug, PartialEq, Eq)]
pub struct FieldHighlight {
    pub field: String,
    pub fragments: Vec<String>,
}

/// The mathematical value of a [`FieldHighlight`].
pub struct FieldHighlightV {
    pub field: Seq<char>,
    pub fragments: Seq<Seq<char>>,
}

impl View for FieldHighlight {
    type V = FieldHighlightV;

    open spec fn view(&self) -> FieldHighlightV {
        FieldHighlightV { field: self.field@, fragments: texts(self.fragments@) }
    }
}

impl Keyed for FieldHighlight {
    open spec fn key_of_item(item: FieldHighlightV) -> Seq<char> {
        item.field
    }

    fn key(&self) -> (r: &str) {
        self.field.as_str()
    }
}

/// The highlights of a document, by field.
pub struct DocumentHighlight {
    pub key: String,
    pub fields: KeyedList<FieldHighlight>,
}

/// The mathematical value of a [`DocumentHighlight`].
pub struct DocumentHighlightV {
    pub key: Seq<char>,
    pub fields: Seq<FieldHighlightV>,
}

impl View for DocumentHighlight {
    type V = DocumentHighlightV;

    open spec fn view(&self) -> DocumentHighlightV {
        DocumentHighlightV { key: self.key@, fields: self.fields@ }
    }
}

impl Keyed for DocumentHighlight {
    open spec fn key_of_item(item: DocumentHighlightV) -> Seq<char> {
        item.key
    }

    fn key(&self) -> (r: &str) {
        self.key.as_str()
    }
}

// ---------------------------------------------------------------------------
// Strings of values
// ---------------------------------------------------------------------------

/// The strings among values.
pub open spec fn strings_among(items: Seq<JsonV>) -> Seq<Seq<char>>
    decreases items.len(),
{
    if items.len() == 0 {
        seq![]
    } else {
        match items.last() {
            JsonV::String(s) => strings_among(items.drop_last()).push(s),
            _ => strings_among(items.drop_last()),
        }
    }
}

/// The strings of a string, or of a collection.
pub open spec fn strings_of(v: JsonV) -> Seq<Seq<char>> {
    match v {
        JsonV::String(s) => seq![s],
        JsonV::Array(items) => strings_among(items),
        _ => seq![],
    }
}

pub(crate) fn value_strings(v: &Json) -> (r: Vec<String>)
    ensures
        texts(r@) == strings_of(v@),
{
    broadcast use {group_json, lemma_texts_push};

    let mut out: Vec<String> = Vec::new();
    match v {
        Json::String(s) => {
            out.push(s.clone());
            assert(texts(out@) =~= seq![s@]);
        },
        Json::Array(items) => {
            let ghost all = values(items@);
            let mut i: usize = 0;
            assert(texts(out@) =~= strings_among(all.take(0)));
            while i < items.len()
                invariant
                    all == values(items@),
                    i <= items@.len(),
                    texts(out@) == strings_among(all.take(i as int)),
                decreases items@.len() - i,
            {
                broadcast use {group_json, lemma_texts_push};

                let ghost before = texts(out@);
                assert(all.take(i + 1).drop_last() =~= all.take(i as int));
                assert(all[i as int] == items@[i as int]@);
                if let Json::String(s) = &items[i] {
                    let s = s.clone();
                    out.push(s);
                    assert(texts(out@) == before.push(s@));
                }
                i += 1;
            }
            assert(all.take(i as int) =~= all);
        },
        _ => {
            assert(texts(out@) =~= seq![]);
        },
    }
    out
}

/// The words of texts.
pub open spec fn words_among(list: Seq<Seq<char>>) -> Seq<Seq<char>>
    decreases list.len(),
{
    if list.len() == 0 {
        seq![]
    } else {
        words_among(list.drop_last()) + words(list.last())
    }
}


/// Extracts the whitespace-separated words of a string (or collection of
/// string) field value, for suggester matching.
pub fn field_words(v: &Json) -> (r: Vec<String>)
    ensures
        texts(r@) == words_among(strings_of(v@)),
{
    let list = value_strings(v);
    let ghost all = texts(list@);
    let mut out: Vec<String> = Vec::new();
    let mut i: usize = 0;
    assert(texts(out@) =~= words_among(all.take(0)));
    while i < list.len()
        invariant
            all == texts(list@),
            i <= list@.len(),
            texts(out@) == words_among(all.take(i as int)),
        decreases list@.len() - i,
    {
        assert(all.take(i + 1).drop_last() =~= all.take(i as int));
        assert(all[i as int] == list@[i as int]@);
        extend_texts(&mut out, split_words(list[i].as_str()));
        i += 1;
    }
    assert(all.take(i as int) =~= all);
    out
}

// ---------------------------------------------------------------------------
// Highlights
// ---------------------------------------------------------------------------

/// The text of a clause.
pub open spec fn clause_text(c: ClauseV) -> Seq<char> {
    match c {
        ClauseV::Term(t) => t,
        ClauseV::FuzzyTerm { term, distance } => term,
        ClauseV::Phrase(p) => p,
    }
}

/// The query terms that highlight, not analyzed: the texts of the required
/// clauses, or the candidate terms of a Lucene query text.
pub open spec fn raw_terms(query: FullTextQueryV) -> Seq<Seq<char>> {
    match query.lucene {
        Some(text) => terms_from(text, 0, seq![]),
        None => query.required.map_values(|c: ClauseV| clause_text(c)),
    }
}

/// Collects the raw (unanalyzed) query terms from a full-text query, for
/// highlight matching. Excluded clauses never highlight. Each term is analyzed
/// with the highlight field's own analyzer at highlight time.
pub fn highlight_raw_terms(query: &FullTextQuery) -> (r: Vec<String>)
    ensures
        texts(r@) == raw_terms(query@),
{
    broadcast use lemma_texts_push;

    if let Some(text) = &query.lucene {
        return lucene_query_terms(text.as_str());
    }
    let ghost all = raw_terms(query@);
    let mut out: Vec<String> = Vec::new();
    let mut i: usize = 0;
    assert(texts(out@) =~= all.take(0));
    while i < query.required.len()
        invariant
            query.lucene is None,
            all == raw_terms(query@),
            i <= query.required@.len(),
            texts(out@) == all.take(i as int),
        decreases query.required@.len() - i,
    {
        broadcast use lemma_texts_push;

        let ghost before = texts(out@);
        assert(query@.required[i as int] == query.required@[i as int]@);
        let t = match &query.required[i] {
            Clause::Term(t) => t.clone(),
            Clause::FuzzyTerm { term, .. } => term.clone(),
            Clause::Phrase(p) => p.clone(),
        };
        out.push(t);
        assert(texts(out@) == before.push(t@));
        i += 1;
        assert(texts(out@) =~= all.take(i as int));
    }
    assert(all.take(i as int) =~= all);
    out
}

/// How query terms are highlighted in a field.
pub struct MarkV {
    pub terms: Seq<Seq<char>>,
    pub analyzer: Option<Seq<char>>,
    pub pre: Seq<char>,
    pub post: Seq<char>,
}

/// The fragments of texts.
pub open spec fn all_fragments(list: Seq<Seq<char>>, mark: MarkV) -> Seq<Seq<char>>
    decreases list.len(),
{
    if list.len() == 0 {
        seq![]
    } else {
        all_fragments(list.drop_last(), mark) + fragments_of(
            list.last(),
            mark.terms,
            mark.analyzer,
            mark.pre,
            mark.post,
        )
    }
}

/// The fragments of the values from `i` on, behind those in `done`, up to
/// [`MAX_HIGHLIGHT_FRAGMENTS`].
pub open spec fn value_fragments(
    found: Seq<JsonV>,
    i: int,
    done: Seq<Seq<char>>,
    mark: MarkV,
) -> Seq<Seq<char>>
    decreases found.len() - i,
{
    if i >= found.len() {
        done
    } else {
        let next = done + all_fragments(strings_of(found[i]), mark);
        if next.len() >= MAX_HIGHLIGHT_FRAGMENTS {
            next.take(MAX_HIGHLIGHT_FRAGMENTS as int)
        } else {
            value_fragments(found, i + 1, next, mark)
        }
    }
}

/// The analyzer name that a field declares.
pub open spec fn declared_analyzer(fields: Seq<FieldV>, path: Seq<char>) -> Option<Seq<char>> {
    match field_by_path(fields, path) {
        Some(f) => f.analyzer,
        None => None,
    }
}

/// The highlighted fragments of a field of a document.
pub open spec fn field_fragments(
    d: DocumentV,
    field: Seq<char>,
    fields: Seq<FieldV>,
    raw: Seq<Seq<char>>,
    pre: Seq<char>,
    post: Seq<char>,
) -> Seq<Seq<char>> {
    let analyzer = declared_analyzer(fields, field);
    let terms = all_terms(raw, analyzer);
    if terms.len() == 0 {
        seq![]
    } else {
        value_fragments(
            path_values(d.fields, field),
            0,
            seq![],
            MarkV { terms, analyzer, pre, post },
        )
    }
}

/// The highlights of some fields of a document: one entry per field that has
/// fragments.
pub open spec fn document_highlights(
    d: DocumentV,
    wanted: Seq<Seq<char>>,
    fields: Seq<FieldV>,
    raw: Seq<Seq<char>>,
    pre: Seq<char>,
    post: Seq<char>,
) -> Seq<FieldHighlightV>
    decreases wanted.len(),
{
    if wanted.len() == 0 {
        seq![]
    } else {
        let rest = document_highlights(d, wanted.drop_last(), fields, raw, pre, post);
        let field = wanted.last();
        let fragments = field_fragments(d, field, fields, raw, pre, post);
        if fragments.len() == 0 {
            rest
        } else {
            keyed_put::<FieldHighlight>(rest, (FieldHighlightV { field, fragments }))
        }
    }
}

/// The highlights of a page: one entry per document with a match in a
/// requested field.
pub open spec fn highlights_of(
    page: Seq<ScoredV>,
    query: SearchQueryV,
    full_text: FullTextQueryV,
    fields: Seq<FieldV>,
) -> Seq<DocumentHighlightV>
    decreases page.len(),
{
    if page.len() == 0 || query.highlight_fields.len() == 0 {
        seq![]
    } else {
        let rest = highlights_of(page.drop_last(), query, full_text, fields);
        let d = page.last().document;
        let found = document_highlights(
            d,
            query.highlight_fields,
            fields,
            raw_terms(full_text),
            query.highlight_pre_tag,
            query.highlight_post_tag,
        );
        if found.len() == 0 {
            rest
        } else {
            keyed_put::<DocumentHighlight>(rest, (DocumentHighlightV { key: d.key, fields: found }))
        }
    }
}

fn analyze_all(raw: &Vec<String>, analyzer: Option<&str>) -> (r: Vec<String>)
    ensures
        texts(r@) == all_terms(texts(raw@), opt_str(analyzer)),
{
    let ghost all = texts(raw@);
    let mut out: Vec<String> = Vec::new();
    let mut i: usize = 0;
    assert(texts(out@) =~= all_terms(all.take(0), opt_str(analyzer)));
    while i < raw.len()
        invariant
            all == texts(raw@),
            i <= raw@.len(),
            texts(out@) == all_terms(all.take(i as int), opt_str(analyzer)),
        decreases raw@.len() - i,
    {
        assert(all.take(i + 1).drop_last() =~= all.take(i as int));
        assert(all[i as int] == raw@[i as int]@);
        extend_texts(&mut out, analyze_with(raw[i].as_str(), analyzer));
        i += 1;
    }
    assert(all.take(i as int) =~= all);
    out
}

fn push_fragments(
    list: &Vec<String>,
    terms: &Vec<String>,
    analyzer: Option<&str>,
    pre: &str,
    post: &str,
    out: &mut Vec<String>,
)
    ensures
        texts(final(out)@) == texts(old(out)@) + all_fragments(
            texts(list@),
            (MarkV {
                terms: texts(terms@),
                analyzer: opt_str(analyzer),
                pre: pre@,
                post: post@,
            }),
        ),
{
    let ghost mark = MarkV {
        terms: texts(terms@),
        analyzer: opt_str(analyzer),
        pre: pre@,
        post: post@,
    };
    let ghost start = texts(out@);
    let ghost all = texts(list@);
    let mut i: usize = 0;
    assert(start + all_fragments(all.take(0), mark) =~= start);
    while i < list.len()
        invariant
            mark == (MarkV {
                terms: texts(terms@),
                analyzer: opt_str(analyzer),
                pre: pre@,
                post: post@,
            }),
            all == texts(list@),
            i <= list@.len(),
            texts(out@) == start + all_fragments(all.take(i as int), mark),
        decreases list@.len() - i,
    {
        assert(all.take(i + 1).drop_last() =~= all.take(i as int));
        assert(all[i as int] == list@[i as int]@);
        if let Some(more) = highlight_fragments(list[i].as_str(), terms, analyzer, pre, post) {
            extend_texts(out, more);
        }
        i += 1;
        assert(texts(out@) =~= start + all_fragments(all.take(i as int), mark));
    }
    assert(all.take(i as int) =~= all);
}

fn highlight_field(
    doc: &Document,
    field: &str,
    definition: &IndexDefinition,
    raw: &Vec<String>,
    pre: &str,
    post: &str,
) -> (r: Vec<String>)
    ensures
        texts(r@) == field_fragments(
            doc@,
            field@,
            definition@.fields,
            texts(raw@),
            pre@,
            post@,
        ),
{
    let analyzer: Option<&str> = match definition.field_path(field) {
        Some(f) => opt_as_str(&f.analyzer),
        None => None,
    };
    assert(opt_str(analyzer) == declared_analyzer(definition@.fields, field@));
    let terms = analyze_all(raw, analyzer);
    let mut out: Vec<String> = Vec::new();
    assert(texts(out@) =~= seq![]);
    if terms.len() == 0 {
        assert(texts(terms@).len() == 0);
        return out;
    }
    let ghost mark = MarkV {
        terms: texts(terms@),
        analyzer: opt_str(analyzer),
        pre: pre@,
        post: post@,
    };
    let found = doc.resolve_path(field);
    let ghost all = ref_values(found@);
    let mut i: usize = 0;
    while i < found.len()
        invariant
            mark == (MarkV {
                terms: texts(terms@),
                analyzer: opt_str(analyzer),
                pre: pre@,
                post: post@,
            }),
            all == ref_values(found@),
            i <= found@.len(),
            value_fragments(all, 0, seq![], mark) == value_fragments(
                all,
                i as int,
                texts(out@),
                mark,
            ),
            field_fragments(doc@, field@, definition@.fields, texts(raw@), pre@, post@)
                == value_fragments(all, 0, seq![], mark),
        decreases found@.len() - i,
    {
        assert(all[i as int] == found@[i as int]@);
        let list = value_strings(found[i]);
        push_fragments(&list, &terms, analyzer, pre, post, &mut out);
        if out.len() >= MAX_HIGHLIGHT_FRAGMENTS {
            let ghost before = out@;
            out.truncate(MAX_HIGHLIGHT_FRAGMENTS);
            assert(texts(out@) =~= texts(before).take(MAX_HIGHLIGHT_FRAGMENTS as int));
            return out;
        }
        i += 1;
    }
    out
}

/// Computes a document's `@search.highlights` value: one entry per highlight
/// field that contains a query term, each with its highlighted sentence-window
/// fragments. Query terms are analyzed with the field's own analyzer, so a
/// `keyword`-analyzed field highlights its verbatim value and an
/// English-analyzed field highlights stemmed forms.
pub fn highlight_document(
    doc: &Document,
    fields: &Vec<String>,
    definition: &IndexDefinition,
    raw: &Vec<String>,
    pre_tag: &str,
    post_tag: &str,
) -> (r: KeyedList<FieldHighlight>)
    ensures
        r@ == document_highlights(
            doc@,
            texts(fields@),
            definition@.fields,
            texts(raw@),
            pre_tag@,
            post_tag@,
        ),
{
    let ghost all = texts(fields@);
    let mut out: KeyedList<FieldHighlight> = KeyedList::new();
    let mut i: usize = 0;
    while i < fields.len()
        invariant
            all == texts(fields@),
            i <= fields@.len(),
            out@ == document_highlights(
                doc@,
                all.take(i as int),
                definition@.fields,
                texts(raw@),
                pre_tag@,
                post_tag@,
            ),
        decreases fields@.len() - i,
    {
        assert(all.take(i + 1).drop_last() =~= all.take(i as int));
        assert(all[i as int] == fields@[i as int]@);
        let fragments = highlight_field(
            doc,
            fields[i].as_str(),
            definition,
            raw,
            pre_tag,
            post_tag,
        );
        assert(texts(fragments@).len() == fragments@.len());
        if fragments.len() > 0 {
            out.put(FieldHighlight { field: fields[i].clone(), fragments });
        }
        i += 1;
    }
    assert(all.take(i as int) =~= all);
    out
}

/// Computes a page's `@search.highlights` value: one entry per document with
/// a query-term match in a requested highlight field. Empty when no
/// `highlight` fields were requested.
pub fn page_highlights(
    query: &SearchQuery,
    full_text: &FullTextQuery,
    definition: &IndexDefinition,
    page: &Vec<Scored>,
) -> (r: KeyedList<DocumentHighlight>)
    ensures
        r@ == highlights_of(scored_views(page@), query@, full_text@, definition@.fields),
{
    let mut out: KeyedList<DocumentHighlight> = KeyedList::new();
    assert(query@.highlight_fields.len() == query.highlight_fields@.len());
    if query.highlight_fields.len() == 0 {
        return out;
    }
    let raw = highlight_raw_terms(full_text);
    let ghost all = scored_views(page@);
    let mut i: usize = 0;
    while i < page.len()
        invariant
            all == scored_views(page@),
            query@.highlight_fields.len() > 0,
            texts(raw@) == raw_terms(full_text@),
            i <= page@.len(),
            out@ == highlights_of(all.take(i as int), query@, full_text@, definition@.fields),
        decreases page@.len() - i,
    {
        assert(all.take(i + 1).drop_last() =~= all.take(i as int));
        assert(all[i as int] == page@[i as int]@);
        let fields = highlight_document(
            &page[i].document,
            &query.highlight_fields,
            definition,
            &raw,
            query.highlight_pre_tag.as_str(),
            query.highlight_post_tag.as_str(),
        );
        if fields.len() > 0 {
            out.put(DocumentHighlight { key: page[i].document.key.clone(), fields });
        }
        i += 1;
    }
    assert(all.take(i as int) =~= all);
    out
}

// ---------------------------------------------------------------------------
// Laws
// ---------------------------------------------------------------------------

/// A field shows at most [`MAX_HIGHLIGHT_FRAGMENTS`] fragments.
pub proof fn law_field_fragments_are_bounded(
    found: Seq<JsonV>,
    i: int,
    done: Seq<Seq<char>>,
    mark: MarkV,
)
    requires
        done.len() <= MAX_HIGHLIGHT_FRAGMENTS,
    ensures
        value_fragments(found, i, done, mark).len() <= MAX_HIGHLIGHT_FRAGMENTS,
    decreases found.len() - i,
{
    if i < found.len() {
        let next = done + all_fragments(strings_of(found[i]), mark);
        if next.len() < MAX_HIGHLIGHT_FRAGMENTS {
            law_field_fragments_are_bounded(found, i + 1, next, mark);
        }
    }
}

/// Excluded clauses never highlight: they do not change the terms.
pub proof fn law_excluded_clauses_do_not_highlight(
    query: FullTextQueryV,
    excluded: Seq<ClauseV>,
)
    ensures
        raw_terms((FullTextQueryV { excluded, ..query })) == raw_terms(query),
{
}

} // verus!
