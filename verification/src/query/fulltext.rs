//! The full-text index that the engine searches: tantivy's index, its
//! documents, and its queries.
use crate::query::analyzers::{AnalyzeToken, AnalyzeTokenV, analyzed};
use crate::query::nesting::nests_shallowly;
use crate::text::{opt_text, texts, utf8_len};
use vstd::prelude::*;

verus! {

/// The tokenizers by name, for text that tantivy itself tokenizes.
#[verifier::external_type_specification]
#[verifier::external_body]
pub struct ExTokenizerManager(tantivy::tokenizer::TokenizerManager);

/// A schema to which fields are added.
#[verifier::external_type_specification]
#[verifier::external_body]
pub struct ExSchemaBuilder(tantivy::schema::SchemaBuilder);

/// A document to be indexed.
#[verifier::external_type_specification]
#[verifier::external_body]
pub struct ExTantivyDocument(tantivy::TantivyDocument);

/// A parser of query texts.
#[verifier::external_type_specification]
#[verifier::external_body]
pub struct ExQueryParser(tantivy::query::QueryParser);

/// An index in memory, with what writes to it and what reads it.
#[verifier::external_body]
pub struct TextIndex {
    index: tantivy::Index,
    reader: tantivy::IndexReader,
    writer: tantivy::IndexWriter,
}

/// The clauses of a boolean query.
#[verifier::external_body]
pub struct QueryClauses {
    clauses: Vec<(tantivy::query::Occur, Box<dyn tantivy::query::Query>)>,
}

// ---------------------------------------------------------------------------
// Schemas
// ---------------------------------------------------------------------------

/// The fields of a schema in the order in which they were added, each by its name
/// and the name of the tokenizer for its texts.
pub uninterp spec fn schema_columns(
    b: tantivy::schema::SchemaBuilder,
) -> Seq<(Seq<char>, Seq<char>)>;

/// Whether a field has a name.
pub open spec fn has_column(columns: Seq<(Seq<char>, Seq<char>)>, name: Seq<char>) -> bool {
    exists|i: int| 0 <= i < columns.len() && (#[trigger] columns[i]).0 == name
}

/// Whether a text can name a field: it is not empty and does not start with a
/// hyphen.
pub open spec fn names_field(name: Seq<char>) -> bool {
    name.len() > 0 && name[0] != '-'
}

/// `tantivy::schema::Schema::builder`: a schema without fields.
#[verifier::external_body]
pub(crate) fn new_schema() -> (r: tantivy::schema::SchemaBuilder)
    ensures
        schema_columns(r) == Seq::<(Seq<char>, Seq<char>)>::empty(),
{
    tantivy::schema::Schema::builder()
}

/// `tantivy::schema::SchemaBuilder::add_text_field` with `STRING | STORED`: adds
/// the field whose texts are kept and are indexed whole, which is what the tokenizer
/// `raw` does. It is the first field.
#[verifier::external_body]
pub(crate) fn add_key_field(b: &mut tantivy::schema::SchemaBuilder, name: &str)
    requires
        names_field(name@),
        schema_columns(*old(b)).len() == 0,
    ensures
        schema_columns(*final(b)) == seq![(name@, "raw"@)],
{
    b.add_text_field(name, tantivy::schema::STRING | tantivy::schema::STORED);
}

/// `tantivy::schema::SchemaBuilder::add_text_field` with a tokenizer and with
/// frequencies and positions: adds a field after the key field. The function
/// panics on a name that cannot name a field or that is in use.
#[verifier::external_body]
pub(crate) fn add_text_field(b: &mut tantivy::schema::SchemaBuilder, name: &str, tokenizer: &str)
    requires
        names_field(name@),
        !has_column(schema_columns(*old(b)), name@),
        schema_columns(*old(b)).len() > 0,
    ensures
        schema_columns(*final(b)) == schema_columns(*old(b)).push((name@, tokenizer@)),
{
    let indexing = tantivy::schema::TextFieldIndexing::default()
        .set_tokenizer(tokenizer)
        .set_index_option(tantivy::schema::IndexRecordOption::WithFreqsAndPositions);
    b.add_text_field(name, tantivy::schema::TextOptions::default().set_indexing_options(indexing));
}

// ---------------------------------------------------------------------------
// Documents
// ---------------------------------------------------------------------------

/// The tokens of one text of a field. A field goes by its place in the schema.
pub struct ValueTokensV {
    pub field: int,
    pub tokens: Seq<AnalyzeTokenV>,
}

/// A document in the index: its key and the tokens of its texts.
pub struct IndexedV {
    pub key: Seq<char>,
    pub texts: Seq<ValueTokensV>,
}

/// What a document holds.
pub uninterp spec fn document_contents(d: tantivy::TantivyDocument) -> IndexedV;

/// `tantivy::TantivyDocument::new`, and `add_text` of the key to the first
/// field.
#[verifier::external_body]
pub(crate) fn new_document(key: &str) -> (r: tantivy::TantivyDocument)
    ensures
        document_contents(r) == (IndexedV { key: key@, texts: Seq::empty() }),
{
    let mut d = tantivy::TantivyDocument::new();
    d.add_text(tantivy::schema::Field::from_field_id(0), key);
    d
}

/// The greatest place of a field that a document can have texts of.
pub const LAST_FIELD: u32 = 65_535;

/// `tantivy::TantivyDocument::add_pre_tokenized_text`: adds a text of a field,
/// by its tokens. The function panics on a field beyond [`LAST_FIELD`].
#[verifier::external_body]
pub(crate) fn add_tokens(
    d: &mut tantivy::TantivyDocument,
    field: u32,
    text: &str,
    tokens: Vec<AnalyzeToken>,
)
    requires
        0 < field <= LAST_FIELD,
    ensures
        document_contents(*final(d)) == (IndexedV {
            key: document_contents(*old(d)).key,
            texts: document_contents(*old(d)).texts.push(
                ValueTokensV { field: field as int, tokens: analyzed(tokens@) },
            ),
        }),
{
    let tokens = tokens.into_iter().map(|t| tantivy::tokenizer::Token {
        offset_from: t.start_offset,
        offset_to: t.end_offset,
        position: t.position,
        text: t.token,
        position_length: 1,
    }).collect();
    let text = tantivy::tokenizer::PreTokenizedString { text: text.to_owned(), tokens };
    d.add_pre_tokenized_text(tantivy::schema::Field::from_field_id(field), text);
}

// ---------------------------------------------------------------------------
// Indexes
// ---------------------------------------------------------------------------

/// The tokenizers of a manager, by their names.
pub uninterp spec fn tokenizer_names(m: tantivy::tokenizer::TokenizerManager) -> Set<Seq<char>>;

/// `tantivy::tokenizer::TokenizerManager::default`: tantivy's own tokenizers, of
/// which `raw` takes a text whole.
#[verifier::external_body]
pub(crate) fn own_tokenizers() -> (r: tantivy::tokenizer::TokenizerManager)
    ensures
        tokenizer_names(r) == set!["raw"@, "default"@, "en_stem"@, "whitespace"@],
{
    tantivy::tokenizer::TokenizerManager::default()
}

/// `tantivy::tokenizer::TokenizerManager::register`, with what `get` finds under the
/// name in another manager, if it finds anything. The tokenizer `raw`, by which keys
/// are indexed, stays tantivy's own. What the tokenizer makes of a text rests on the
/// manager that it comes from.
#[verifier::external_body]
pub(crate) fn add_tokenizer(
    m: &mut tantivy::tokenizer::TokenizerManager,
    from: &tantivy::tokenizer::TokenizerManager,
    name: &str,
) -> (r: bool)
    requires
        name@ != "raw"@,
    ensures
        tokenizer_names(*final(m)) == if r {
            tokenizer_names(*old(m)).insert(name@)
        } else {
            tokenizer_names(*old(m))
        },
{
    match from.get(name) {
        Some(tokenizer) => {
            m.register(name, tokenizer);
            true
        },
        None => false,
    }
}

/// The fields of an index, each by its name and the name of its tokenizer.
pub uninterp spec fn index_columns(t: TextIndex) -> Seq<(Seq<char>, Seq<char>)>;

/// The tokenizers of an index, by their names: query texts are tokenized with them.
pub uninterp spec fn index_tokenizers(t: TextIndex) -> Set<Seq<char>>;

/// The documents that a search sees.
pub uninterp spec fn index_visible(t: TextIndex) -> Seq<IndexedV>;

/// The documents that a search sees once they are published.
pub uninterp spec fn index_pending(t: TextIndex) -> Seq<IndexedV>;

/// Whether what writes to an index works: it has not failed since the index was
/// opened.
pub uninterp spec fn writer_works(t: TextIndex) -> bool;

/// Whether what writes to an index can be set up anew: that has not failed since
/// the index was opened.
pub uninterp spec fn writer_restorable(t: TextIndex) -> bool;

/// The greatest length of a token that the index takes, in bytes.
pub open spec fn fits_token(text: Seq<char>) -> bool {
    utf8_len(text) <= 65530
}

/// Documents without those with a key. A key that is too long to be a token is
/// not found.
pub open spec fn without_document(docs: Seq<IndexedV>, key: Seq<char>) -> Seq<IndexedV> {
    docs.filter(|d: IndexedV| !(d.key == key && fits_token(key)))
}

/// Whether an index has the fields and the tokenizers that another has.
pub open spec fn same_setup(t: TextIndex, u: TextIndex) -> bool {
    index_columns(t) == index_columns(u) && index_tokenizers(t) == index_tokenizers(u)
}

/// `tantivy::IndexBuilder::create_in_ram` with the schema and the tokenizers, and
/// the index's `reader_builder` and `writer`: an index without documents. The reader
/// sees what was published last. An error is given by its `Display` text.
#[verifier::external_body]
pub(crate) fn open_index(
    schema: tantivy::schema::SchemaBuilder,
    tokenizers: tantivy::tokenizer::TokenizerManager,
    heap: usize,
) -> (r: Result<TextIndex, String>)
    requires
        schema_columns(schema).len() > 0,
        tokenizer_names(tokenizers).contains("raw"@),
    ensures
        r matches Ok(t) ==> index_columns(t) == schema_columns(schema),
        r matches Ok(t) ==> index_tokenizers(t) == tokenizer_names(tokenizers),
        r matches Ok(t) ==> index_visible(t) == Seq::<IndexedV>::empty(),
        r matches Ok(t) ==> index_pending(t) == Seq::<IndexedV>::empty(),
        r matches Ok(t) ==> writer_works(t),
        r matches Ok(t) ==> writer_restorable(t),
{
    let settings = tantivy::Index::builder().schema(schema.build()).tokenizers(tokenizers);
    let index = match settings.create_in_ram() {
        Ok(index) => index,
        Err(e) => return Err(e.to_string()),
    };
    let builder = index.reader_builder().reload_policy(tantivy::ReloadPolicy::Manual);
    match (builder.try_into(), index.writer(heap)) {
        (Ok(reader), Ok(writer)) => Ok(TextIndex { index, reader, writer }),
        (Err(e), _) => Err(e.to_string()),
        (_, Err(e)) => Err(e.to_string()),
    }
}

/// `tantivy::IndexWriter::delete_term` on the key: takes out the documents with
/// the key.
#[verifier::external_body]
pub(crate) fn delete_key(t: &mut TextIndex, key: &str)
    requires
        writer_works(*old(t)),
    ensures
        writer_works(*final(t)),
        index_pending(*final(t)) == without_document(index_pending(*old(t)), key@),
        index_visible(*final(t)) == index_visible(*old(t)),
        writer_restorable(*final(t)) == writer_restorable(*old(t)),
        same_setup(*final(t), *old(t)),
{
    let field = tantivy::schema::Field::from_field_id(0);
    t.writer.delete_term(tantivy::Term::from_field_text(field, key));
}

/// Whether the fields of a document are among the first `n` fields.
pub open spec fn document_fits(d: IndexedV, n: int) -> bool {
    forall|i: int| 0 <= i < d.texts.len() ==> 0 < (#[trigger] d.texts[i]).field < n
}

/// `tantivy::IndexWriter::add_document`. An error is given by its `Display`
/// text; what is pending after one, and whether the writer still works, is not
/// stated.
#[verifier::external_body]
pub(crate) fn add_document(t: &mut TextIndex, d: tantivy::TantivyDocument) -> (r: Result<
    (),
    String,
>)
    requires
        writer_works(*old(t)),
        document_fits(document_contents(d), index_columns(*old(t)).len() as int),
    ensures
        r is Ok ==> writer_works(*final(t)),
        r is Ok ==> index_pending(*final(t)) == index_pending(*old(t)).push(document_contents(d)),
        index_visible(*final(t)) == index_visible(*old(t)),
        writer_restorable(*final(t)) == writer_restorable(*old(t)),
        same_setup(*final(t), *old(t)),
{
    match t.writer.add_document(d) {
        Ok(_) => Ok(()),
        Err(e) => Err(e.to_string()),
    }
}

/// `tantivy::IndexWriter::commit`, and `tantivy::IndexReader::reload`: makes
/// what is pending visible. An error is given by its `Display` text; what is
/// visible after one, and whether the writer still works, is not stated: a commit
/// that fails leaves a writer that can take documents without indexing them.
#[verifier::external_body]
pub(crate) fn publish(t: &mut TextIndex) -> (r: Result<(), String>)
    requires
        writer_works(*old(t)),
    ensures
        r is Ok ==> writer_works(*final(t)),
        r is Ok ==> index_visible(*final(t)) == index_pending(*old(t)),
        r is Ok ==> index_pending(*final(t)) == index_pending(*old(t)),
        writer_restorable(*final(t)) == writer_restorable(*old(t)),
        same_setup(*final(t), *old(t)),
{
    match (t.writer.commit(), t.reader.reload()) {
        (Ok(_), Ok(_)) => Ok(()),
        (Err(e), _) => Err(e.to_string()),
        (_, Err(e)) => Err(e.to_string()),
    }
}

/// `tantivy::IndexWriter::rollback`, and `tantivy::IndexReader::reload`: sets up
/// anew what writes to the index, with the documents of the last commit. Which these
/// are is not stated: a change that failed may have been committed. The function
/// panics once it has failed. An error is given by its `Display` text.
#[verifier::external_body]
pub(crate) fn restore(t: &mut TextIndex) -> (r: Result<(), String>)
    requires
        writer_restorable(*old(t)),
    ensures
        r is Ok ==> writer_works(*final(t)),
        r is Ok ==> writer_restorable(*final(t)),
        r is Ok ==> index_pending(*final(t)) == index_visible(*final(t)),
        same_setup(*final(t), *old(t)),
{
    match (t.writer.rollback(), t.reader.reload()) {
        (Ok(_), Ok(_)) => Ok(()),
        (Err(e), _) => Err(e.to_string()),
        (_, Err(e)) => Err(e.to_string()),
    }
}

// ---------------------------------------------------------------------------
// Queries
// ---------------------------------------------------------------------------

/// How a clause counts.
#[derive(Debug, Clone, Copy, PartialEq, Eq, Structural)]
pub enum Occurs {
    Must,
    Should,
    MustNot,
}

/// A query.
pub enum TreeV {
    /// Every document.
    All,
    /// No document.
    Empty,
    /// Documents with a token in a field.
    Term(int, Seq<char>),
    /// Documents with a token in a field that is some edits away from a text.
    Fuzzy(int, Seq<char>, u8),
    /// Documents with adjacent tokens in a field.
    Phrase(int, Seq<Seq<char>>),
    /// A query with its scores multiplied.
    Boost(Box<TreeV>, u64),
    /// A combination of queries.
    Group(Seq<(Occurs, TreeV)>),
    /// What a query text stands for to a parser.
    Parsed(ParserV, Seq<char>),
}

/// The clauses of a query.
pub uninterp spec fn clauses_of(q: QueryClauses) -> Seq<(Occurs, TreeV)>;

/// Whether some edits make one text of another: to put in, take out, or change a
/// character, or to swap two neighbours that no other edit touches.
pub open spec fn within_edits(a: Seq<char>, b: Seq<char>, edits: int) -> bool
    decreases a.len() + b.len(),
{
    if edits < 0 {
        false
    } else if a.len() == 0 || b.len() == 0 {
        a.len() + b.len() <= edits
    } else {
        ||| a[0] == b[0] && within_edits(a.skip(1), b.skip(1), edits)
        ||| within_edits(a.skip(1), b, edits - 1)
        ||| within_edits(a, b.skip(1), edits - 1)
        ||| within_edits(a.skip(1), b.skip(1), edits - 1)
        ||| a.len() >= 2 && b.len() >= 2 && a[0] == b[1] && a[1] == b[0] && within_edits(
            a.skip(2),
            b.skip(2),
            edits - 1,
        )
    }
}

/// Whether a token of a text stands at a position. A token that is too long is not
/// in the index.
pub open spec fn token_at(text: Seq<AnalyzeTokenV>, token: Seq<char>, position: int) -> bool {
    exists|j: int|
        0 <= j < text.len() && (#[trigger] text[j]).position == position && text[j].token == token
            && fits_token(token)
}

/// Whether the tokens of a phrase stand in a text one behind the other, from a
/// position on.
pub open spec fn phrase_at(text: Seq<AnalyzeTokenV>, tokens: Seq<Seq<char>>, start: int) -> bool {
    forall|k: int| 0 <= k < tokens.len() ==> token_at(text, #[trigger] tokens[k], start + k)
}

/// Whether a text of a field holds the tokens of a phrase one behind the other.
pub open spec fn holds_phrase(d: IndexedV, field: int, tokens: Seq<Seq<char>>) -> bool {
    exists|i: int, start: int|
        0 <= i < d.texts.len() && (#[trigger] d.texts[i]).field == field && #[trigger] phrase_at(
            d.texts[i].tokens,
            tokens,
            start,
        )
}

/// How many positions the texts of a document take up at most.
pub open spec fn positions_of(texts: Seq<ValueTokensV>) -> int
    decreases texts.len(),
{
    if texts.len() == 0 {
        0
    } else {
        let tokens = texts.last().tokens;
        positions_of(texts.drop_last()) + 2 + if tokens.len() == 0 {
            0
        } else {
            tokens.last().position as int
        }
    }
}

/// The bound on positions, of a document and of a phrase.
pub const MAX_POSITIONS: u32 = 0x7fff_ffff;

/// Whether an index counts the positions of a document's tokens as they are: they
/// never go back within a text, and are not too many.
pub open spec fn positions_fit(d: IndexedV) -> bool {
    positions_of(d.texts) <= MAX_POSITIONS && forall|i: int, j: int, k: int|
        0 <= i < d.texts.len() && 0 <= j <= k < d.texts[i].tokens.len() ==> (
        #[trigger] d.texts[i].tokens[j]).position <= (#[trigger] d.texts[i].tokens[k]).position
}

/// Whether a document has a token in a field that some condition holds of. A
/// token that is too long is not in the index.
pub open spec fn has_token(d: IndexedV, field: int, wanted: spec_fn(Seq<char>) -> bool) -> bool {
    exists|i: int, k: int|
        0 <= i < d.texts.len() && d.texts[i].field == field && 0 <= k < d.texts[i].tokens.len()
            && fits_token(d.texts[i].tokens[k].token) && wanted(
            (#[trigger] d.texts[i].tokens[k]).token,
        )
}

/// Whether a query matches a document. A combination matches where all its
/// `Must` clauses match, none of its `MustNot` clauses does, and, without a
/// `Must` clause, one of its `Should` clauses does.
pub open spec fn tree_matches(t: TreeV, d: IndexedV) -> bool
    decreases t,
{
    match t {
        TreeV::All => true,
        TreeV::Empty => false,
        TreeV::Term(field, token) => has_token(d, field, |t: Seq<char>| t == token),
        TreeV::Fuzzy(field, text, distance) => has_token(
            d,
            field,
            |t: Seq<char>| within_edits(text, t, distance as int),
        ),
        TreeV::Phrase(field, tokens) => holds_phrase(d, field, tokens),
        TreeV::Boost(inner, _) => tree_matches(*inner, d),
        TreeV::Group(c) => {
            &&& forall|i: int|
                0 <= i < c.len() && (#[trigger] c[i]).0 is Must ==> tree_matches(c[i].1, d)
            &&& forall|i: int|
                0 <= i < c.len() && (#[trigger] c[i]).0 is MustNot ==> !tree_matches(c[i].1, d)
            &&& (exists|i: int| 0 <= i < c.len() && (#[trigger] c[i]).0 is Must) || (exists|i: int|
                0 <= i < c.len() && (#[trigger] c[i]).0 is Should && tree_matches(c[i].1, d))
        },
        TreeV::Parsed(_, _) => false,
    }
}

/// Whether a rank is that of a number between the least and the greatest positive
/// binary32 number, which the boosts of an index are.
pub open spec fn is_boost(rank: u64) -> bool {
    0xb6a0_0000_0000_0000 <= rank <= 0xc7ef_ffff_e000_0000
}

/// Whether [`tree_matches`] says which documents a query matches: it holds no
/// query text, and at most one boost multiplies a score (`boosted` says whether one
/// already does), so that no score is lost in the product of boosts.
pub open spec fn tree_plain(t: TreeV, boosted: bool) -> bool
    decreases t,
{
    match t {
        TreeV::Boost(inner, boost) => !boosted && is_boost(boost) && tree_plain(*inner, true),
        TreeV::Group(c) => forall|i: int|
            0 <= i < c.len() ==> tree_plain((#[trigger] c[i]).1, boosted),
        TreeV::Phrase(_, tokens) => tokens.len() <= MAX_POSITIONS,
        TreeV::Parsed(_, _) => false,
        _ => true,
    }
}

/// Whether [`tree_matches`] says which of some documents a query matches: it is
/// plain, and the positions of the documents are those of the index.
pub open spec fn tree_decides(t: TreeV, docs: Seq<IndexedV>) -> bool {
    tree_plain(t, false) && forall|j: int| 0 <= j < docs.len() ==> positions_fit(#[trigger] docs[j])
}

/// Whether a query can be put to an index: its fields are fields of the index,
/// behind that of the key, and its texts were parsed for the index.
pub open spec fn tree_fits(t: TreeV, index: TextIndex) -> bool
    decreases t,
{
    match t {
        TreeV::Term(field, _) => 0 < field < index_columns(index).len(),
        TreeV::Fuzzy(field, _, _) => 0 < field < index_columns(index).len(),
        TreeV::Phrase(field, _) => 0 < field < index_columns(index).len(),
        TreeV::Boost(inner, _) => tree_fits(*inner, index),
        TreeV::Group(c) => forall|i: int|
            0 <= i < c.len() ==> tree_fits((#[trigger] c[i]).1, index),
        TreeV::Parsed(setup, _) => setup.index == index,
        _ => true,
    }
}

/// No clauses.
#[verifier::external_body]
pub(crate) fn no_clauses() -> (r: QueryClauses)
    ensures
        clauses_of(r) == Seq::<(Occurs, TreeV)>::empty(),
{
    QueryClauses { clauses: Vec::new() }
}

/// Whether there are clauses.
#[verifier::external_body]
pub(crate) fn has_clauses(q: &QueryClauses) -> (r: bool)
    ensures
        r == (clauses_of(*q).len() > 0),
{
    !q.clauses.is_empty()
}

/// A clause of `tantivy::query::AllQuery`.
#[verifier::external_body]
pub(crate) fn push_all(q: &mut QueryClauses)
    ensures
        clauses_of(*final(q)) == clauses_of(*old(q)).push((Occurs::Must, TreeV::All)),
{
    q.clauses.push((tantivy::query::Occur::Must, Box::new(tantivy::query::AllQuery)));
}

/// A clause of `tantivy::query::TermQuery`.
#[verifier::external_body]
pub(crate) fn push_term(q: &mut QueryClauses, field: u32, token: &str)
    ensures
        clauses_of(*final(q)) == clauses_of(*old(q)).push(
            (Occurs::Should, TreeV::Term(field as int, token@)),
        ),
{
    let field = tantivy::schema::Field::from_field_id(field);
    let term = tantivy::Term::from_field_text(field, token);
    let frequencies = tantivy::schema::IndexRecordOption::WithFreqs;
    let query = tantivy::query::TermQuery::new(term, frequencies);
    q.clauses.push((tantivy::query::Occur::Should, Box::new(query)));
}

/// A clause of `tantivy::query::FuzzyTermQuery`, a transposition counting as one
/// edit.
#[verifier::external_body]
pub(crate) fn push_fuzzy(q: &mut QueryClauses, field: u32, text: &str, distance: u8)
    ensures
        clauses_of(*final(q)) == clauses_of(*old(q)).push(
            (Occurs::Should, TreeV::Fuzzy(field as int, text@, distance)),
        ),
{
    let field = tantivy::schema::Field::from_field_id(field);
    let term = tantivy::Term::from_field_text(field, text);
    let query = tantivy::query::FuzzyTermQuery::new(term, distance, true);
    q.clauses.push((tantivy::query::Occur::Should, Box::new(query)));
}

/// A clause of `tantivy::query::PhraseQuery`, which panics on fewer than two
/// tokens.
#[verifier::external_body]
pub(crate) fn push_phrase(q: &mut QueryClauses, field: u32, tokens: &Vec<String>)
    requires
        tokens@.len() >= 2,
    ensures
        clauses_of(*final(q)) == clauses_of(*old(q)).push(
            (Occurs::Should, TreeV::Phrase(field as int, texts(tokens@))),
        ),
{
    let field = tantivy::schema::Field::from_field_id(field);
    let terms = tokens.iter().map(|t| tantivy::Term::from_field_text(field, t)).collect();
    let query = tantivy::query::PhraseQuery::new(terms);
    q.clauses.push((tantivy::query::Occur::Should, Box::new(query)));
}

/// `tantivy::query::BoostQuery` round the last clause's query.
#[verifier::external_body]
pub(crate) fn boost_last(q: &mut QueryClauses, boost: u64)
    requires
        clauses_of(*old(q)).len() > 0,
    ensures
        clauses_of(*final(q)) == clauses_of(*old(q)).drop_last().push(
            (
                clauses_of(*old(q)).last().0,
                TreeV::Boost(Box::new(clauses_of(*old(q)).last().1), boost),
            ),
        ),
{
    if let Some((occur, query)) = q.clauses.pop() {
        let factor = tantivy::u64_to_f64(boost) as tantivy::Score;
        q.clauses.push((occur, Box::new(tantivy::query::BoostQuery::new(query, factor))));
    }
}

/// A clause of `tantivy::query::BooleanQuery`.
#[verifier::external_body]
pub(crate) fn push_group(q: &mut QueryClauses, occurs: Occurs, inner: QueryClauses)
    ensures
        clauses_of(*final(q)) == clauses_of(*old(q)).push(
            (occurs, TreeV::Group(clauses_of(inner))),
        ),
{
    let occur = match occurs {
        Occurs::Must => tantivy::query::Occur::Must,
        Occurs::Should => tantivy::query::Occur::Should,
        Occurs::MustNot => tantivy::query::Occur::MustNot,
    };
    q.clauses.push((occur, Box::new(tantivy::query::BooleanQuery::new(inner.clauses))));
}

/// A clause of `tantivy::query::EmptyQuery`.
#[verifier::external_body]
pub(crate) fn push_empty(q: &mut QueryClauses, occurs: Occurs)
    ensures
        clauses_of(*final(q)) == clauses_of(*old(q)).push((occurs, TreeV::Empty)),
{
    let occur = match occurs {
        Occurs::Must => tantivy::query::Occur::Must,
        Occurs::Should => tantivy::query::Occur::Should,
        Occurs::MustNot => tantivy::query::Occur::MustNot,
    };
    q.clauses.push((occur, Box::new(tantivy::query::EmptyQuery)));
}

// ---------------------------------------------------------------------------
// Query texts
// ---------------------------------------------------------------------------

/// How a parser of query texts is set up: for an index, by whose fields and
/// tokenizers it parses.
pub struct ParserV {
    pub index: TextIndex,
    pub fields: Seq<u32>,
    pub all: bool,
    pub regexes: bool,
    pub boosts: Seq<(u32, u64)>,
}

/// How a parser of query texts is set up.
pub uninterp spec fn parser_setup(p: tantivy::query::QueryParser) -> ParserV;

/// `tantivy::query::QueryParser::for_index`: a parser whose default fields are
/// the given ones.
#[verifier::external_body]
pub(crate) fn parser_for(t: &TextIndex, fields: &Vec<u32>) -> (r: tantivy::query::QueryParser)
    requires
        forall|i: int| 0 <= i < fields@.len() ==> #[trigger] fields@[i] < index_columns(*t).len(),
    ensures
        parser_setup(r) == (ParserV {
            index: *t,
            fields: fields@,
            all: false,
            regexes: false,
            boosts: Seq::empty(),
        }),
{
    let fields = fields.iter().map(|f| tantivy::schema::Field::from_field_id(*f)).collect();
    tantivy::query::QueryParser::for_index(&t.index, fields)
}

/// `tantivy::query::QueryParser::set_conjunction_by_default`.
#[verifier::external_body]
pub(crate) fn demand_all(p: &mut tantivy::query::QueryParser)
    ensures
        parser_setup(*final(p)) == (ParserV { all: true, ..parser_setup(*old(p)) }),
{
    p.set_conjunction_by_default();
}

/// `tantivy::query::QueryParser::allow_regexes`.
#[verifier::external_body]
pub(crate) fn allow_regexes(p: &mut tantivy::query::QueryParser)
    ensures
        parser_setup(*final(p)) == (ParserV { regexes: true, ..parser_setup(*old(p)) }),
{
    p.allow_regexes();
}

/// `tantivy::query::QueryParser::set_field_boost`.
#[verifier::external_body]
pub(crate) fn boost_field(p: &mut tantivy::query::QueryParser, field: u32, boost: u64)
    ensures
        parser_setup(*final(p)) == (ParserV {
            boosts: parser_setup(*old(p)).boosts.push((field, boost)),
            ..parser_setup(*old(p))
        }),
{
    let field = tantivy::schema::Field::from_field_id(field);
    p.set_field_boost(field, tantivy::u64_to_f64(boost) as tantivy::Score);
}

/// What is wrong with a query text to a parser, if it is not parsed. The index's
/// tokenizers make the same tokens of a text each time.
pub uninterp spec fn parse_problem(p: ParserV, text: Seq<char>) -> Option<Seq<char>>;

/// `tantivy::query::QueryParser::parse_query`: a clause of what the text stands
/// for. It recurses into groups and negations without a bound of its own. Which
/// documents the clause matches rests on tantivy's query grammar and on the
/// index's tokenizers, and is part of [`index_answer`]; neither the fields nor the
/// tokenizers of an index change once it is open. An error is given by its `Display`
/// text.
#[verifier::external_body]
pub(crate) fn push_parsed(q: &mut QueryClauses, p: &tantivy::query::QueryParser, text: &str) -> (r:
    Result<(), String>)
    requires
        nests_shallowly(text@),
    ensures
        match r {
            Ok(_) => parse_problem(parser_setup(*p), text@) is None && clauses_of(*final(q))
                == clauses_of(*old(q)).push(
                (Occurs::Must, TreeV::Parsed(parser_setup(*p), text@)),
            ),
            Err(m) => parse_problem(parser_setup(*p), text@) == Some(m@) && clauses_of(*final(q))
                == clauses_of(*old(q)),
        },
{
    match p.parse_query(text) {
        Ok(query) => {
            q.clauses.push((tantivy::query::Occur::Must, query));
            Ok(())
        },
        Err(e) => Err(e.to_string()),
    }
}

// ---------------------------------------------------------------------------
// Searching
// ---------------------------------------------------------------------------

/// A document that a search found, by its key, with its score. The key is
/// missing where the document could not be read.
#[derive(Debug, PartialEq, Eq)]
pub struct Hit {
    pub key: Option<String>,
    pub score: u64,
}

/// The mathematical value of a [`Hit`].
pub struct HitV {
    pub key: Option<Seq<char>>,
    pub score: u64,
}

impl View for Hit {
    type V = HitV;

    open spec fn view(&self) -> HitV {
        HitV { key: opt_text(self.key), score: self.score }
    }
}

pub open spec fn hit_views(v: Seq<Hit>) -> Seq<HitV> {
    v.map_values(|h: Hit| h@)
}

/// Whether hits are what a search among documents can find: each is a document,
/// and where the query says which documents it matches, each is one that the
/// query matches, and each such document is found if all documents fit into the
/// limit and all that were found could be read.
pub open spec fn found(
    docs: Seq<IndexedV>,
    clauses: Seq<(Occurs, TreeV)>,
    limit: int,
    hits: Seq<HitV>,
) -> bool {
    let tree = TreeV::Group(clauses);
    &&& forall|i: int|
        0 <= i < hits.len() && (#[trigger] hits[i]).key is Some ==> key_found(
            docs,
            tree,
            hits[i].key->Some_0,
        )
    &&& tree_decides(tree, docs) && docs.len() <= limit && (forall|i: int|
        0 <= i < hits.len() ==> (#[trigger] hits[i]).key is Some) ==> forall|j: int|
        0 <= j < docs.len() && tree_matches(tree, #[trigger] docs[j]) ==> exists|i: int|
            0 <= i < hits.len() && (#[trigger] hits[i]).key == Some(docs[j].key)
}

/// Whether a key is that of a document, and of one that a plain query matches.
pub open spec fn key_found(docs: Seq<IndexedV>, tree: TreeV, key: Seq<char>) -> bool {
    exists|j: int|
        0 <= j < docs.len() && (#[trigger] docs[j]).key == key && (tree_decides(tree, docs)
            ==> tree_matches(tree, docs[j]))
}

/// What a search of an index for clauses answers: what it finds, best first, which
/// are the documents that the clauses match, by their keys, with their scores; or
/// what is wrong with the clauses.
pub uninterp spec fn index_answer(
    t: TextIndex,
    clauses: Seq<(Occurs, TreeV)>,
    limit: usize,
) -> Result<Seq<HitV>, Seq<char>>;

pub open spec fn hits_result(r: Result<Vec<Hit>, String>) -> Result<Seq<HitV>, Seq<char>> {
    match r {
        Ok(hits) => Ok(hit_views(hits@)),
        Err(m) => Err(m@),
    }
}

/// The greatest number of documents that a search is asked for.
pub const MAX_HITS: usize = 1_000_000;

/// `tantivy::Searcher::search` with `tantivy::collector::TopDocs`, and
/// `tantivy::Searcher::doc` for the keys, on what the index's reader saw when it
/// was reloaded last. `TopDocs` makes room for twice the limit. An error is given
/// by its `Display` text.
#[verifier::external_body]
pub(crate) fn search_index(t: &TextIndex, q: QueryClauses, limit: usize) -> (r: Result<
    Vec<Hit>,
    String,
>)
    requires
        0 < limit <= MAX_HITS,
        tree_fits(TreeV::Group(clauses_of(q)), *t),
    ensures
        hits_result(r) == index_answer(*t, clauses_of(q), limit),
        r matches Ok(hits) ==> found(
            index_visible(*t),
            clauses_of(q),
            limit as int,
            hit_views(hits@),
        ),
{
    let searcher = t.reader.searcher();
    let top = tantivy::collector::TopDocs::with_limit(limit).order_by_score();
    let field = tantivy::schema::Field::from_field_id(0);
    let key = |d: tantivy::TantivyDocument| {
        d.get_first(field).and_then(|v| tantivy::schema::Value::as_str(&v).map(String::from))
    };
    match searcher.search(&tantivy::query::BooleanQuery::new(q.clauses), &top) {
        Ok(docs) => Ok(docs.into_iter().map(|(score, at)| Hit {
            key: searcher.doc(at).ok().and_then(key),
            score: tantivy::f64_to_u64(score.into()),
        }).collect()),
        Err(e) => Err(e.to_string()),
    }
}

// ---------------------------------------------------------------------------
// Laws
// ---------------------------------------------------------------------------

proof fn lemma_more_edits(a: Seq<char>, b: Seq<char>, m: int, n: int)
    requires
        m <= n,
        within_edits(a, b, m),
    ensures
        within_edits(a, b, n),
    decreases a.len() + b.len(),
{
    if a.len() > 0 && b.len() > 0 {
        if a[0] == b[0] && within_edits(a.skip(1), b.skip(1), m) {
            lemma_more_edits(a.skip(1), b.skip(1), m, n);
        } else if within_edits(a.skip(1), b, m - 1) {
            lemma_more_edits(a.skip(1), b, m - 1, n - 1);
        } else if within_edits(a, b.skip(1), m - 1) {
            lemma_more_edits(a, b.skip(1), m - 1, n - 1);
        } else if within_edits(a.skip(1), b.skip(1), m - 1) {
            lemma_more_edits(a.skip(1), b.skip(1), m - 1, n - 1);
        } else {
            lemma_more_edits(a.skip(2), b.skip(2), m - 1, n - 1);
        }
    }
}

proof fn lemma_edits_go_back(a: Seq<char>, b: Seq<char>, n: int)
    requires
        within_edits(a, b, n),
    ensures
        within_edits(b, a, n),
    decreases a.len() + b.len(),
{
    if a.len() > 0 && b.len() > 0 {
        if a[0] == b[0] && within_edits(a.skip(1), b.skip(1), n) {
            lemma_edits_go_back(a.skip(1), b.skip(1), n);
        } else if within_edits(a.skip(1), b, n - 1) {
            lemma_edits_go_back(a.skip(1), b, n - 1);
        } else if within_edits(a, b.skip(1), n - 1) {
            lemma_edits_go_back(a, b.skip(1), n - 1);
        } else if within_edits(a.skip(1), b.skip(1), n - 1) {
            lemma_edits_go_back(a.skip(1), b.skip(1), n - 1);
        } else {
            lemma_edits_go_back(a.skip(2), b.skip(2), n - 1);
        }
    }
}

proof fn lemma_no_edits(a: Seq<char>, b: Seq<char>)
    ensures
        within_edits(a, b, 0) <==> a == b,
    decreases a.len() + b.len(),
{
    if a.len() == 0 || b.len() == 0 {
        if a.len() + b.len() == 0 {
            assert(a =~= b);
        }
    } else {
        let (x, y) = (a.skip(1), b.skip(1));
        lemma_no_edits(x, y);
        assert(!within_edits(x, b, -1));
        assert(!within_edits(a, y, -1));
        assert(!within_edits(x, y, -1));
        assert(!within_edits(a.skip(2), b.skip(2), -1));
        if a[0] == b[0] && x == y {
            assert(a =~= seq![a[0]] + x);
            assert(b =~= seq![b[0]] + y);
        }
    }
}

proof fn lemma_edits_by_length(a: Seq<char>, b: Seq<char>, n: int)
    requires
        within_edits(a, b, n),
    ensures
        a.len() <= b.len() + n,
        b.len() <= a.len() + n,
    decreases a.len() + b.len(),
{
    if a.len() > 0 && b.len() > 0 {
        if a[0] == b[0] && within_edits(a.skip(1), b.skip(1), n) {
            lemma_edits_by_length(a.skip(1), b.skip(1), n);
        } else if within_edits(a.skip(1), b, n - 1) {
            lemma_edits_by_length(a.skip(1), b, n - 1);
        } else if within_edits(a, b.skip(1), n - 1) {
            lemma_edits_by_length(a, b.skip(1), n - 1);
        } else if within_edits(a.skip(1), b.skip(1), n - 1) {
            lemma_edits_by_length(a.skip(1), b.skip(1), n - 1);
        } else {
            lemma_edits_by_length(a.skip(2), b.skip(2), n - 1);
        }
    }
}

/// Edits are counted as a distance is: no edit is between a text and itself alone, as
/// many edits lead back as lead on, and more edits reach what fewer do. They make a
/// text longer or shorter by no more characters than they are.
pub proof fn law_edits_are_a_distance(a: Seq<char>, b: Seq<char>, m: int, n: int)
    ensures
        within_edits(a, b, 0) <==> a == b,
        within_edits(a, b, n) == within_edits(b, a, n),
        m <= n && within_edits(a, b, m) ==> within_edits(a, b, n),
        within_edits(a, b, n) ==> a.len() <= b.len() + n && b.len() <= a.len() + n,
{
    lemma_no_edits(a, b);
    if within_edits(a, b, n) {
        lemma_edits_go_back(a, b, n);
        lemma_edits_by_length(a, b, n);
    }
    if within_edits(b, a, n) {
        lemma_edits_go_back(b, a, n);
    }
    if m <= n && within_edits(a, b, m) {
        lemma_more_edits(a, b, m, n);
    }
}

proof fn lemma_edits_behind(x: Seq<char>, a: Seq<char>, b: Seq<char>, n: int)
    requires
        within_edits(a, b, n),
    ensures
        within_edits(x + a, x + b, n),
    decreases x.len(),
{
    if x.len() == 0 {
        assert(x + a =~= a);
        assert(x + b =~= b);
    } else {
        lemma_edits_behind(x.skip(1), a, b, n);
        let (s, t) = (x + a, x + b);
        assert(s.skip(1) =~= x.skip(1) + a);
        assert(t.skip(1) =~= x.skip(1) + b);
        assert(s[0] == t[0]);
        lemma_edits_nonnegative(a, b, n);
    }
}

proof fn lemma_edits_nonnegative(a: Seq<char>, b: Seq<char>, n: int)
    requires
        within_edits(a, b, n),
    ensures
        n >= 0,
{
}

/// One edit puts in, takes out, or changes a character, or swaps two neighbours.
pub proof fn law_one_edit(before: Seq<char>, c: char, d: char, after: Seq<char>)
    ensures
        within_edits(before + after, before + seq![c] + after, 1),
        within_edits(before + seq![c] + after, before + after, 1),
        within_edits(before + seq![c] + after, before + seq![d] + after, 1),
        within_edits(before + seq![c, d] + after, before + seq![d, c] + after, 1),
{
    let (one, other) = (seq![c] + after, seq![d] + after);
    let (pair, swapped) = (seq![c, d] + after, seq![d, c] + after);
    lemma_no_edits(after, after);
    assert(one.skip(1) =~= after);
    assert(other.skip(1) =~= after);
    assert(pair.skip(2) =~= after);
    assert(swapped.skip(2) =~= after);
    assert(pair[0] == c && pair[1] == d && swapped[0] == d && swapped[1] == c);
    assert(within_edits(after, one, 1));
    assert(within_edits(one, after, 1));
    assert(within_edits(one, other, 1));
    assert(within_edits(pair, swapped, 1));
    lemma_edits_behind(before, after, one, 1);
    lemma_edits_behind(before, one, after, 1);
    lemma_edits_behind(before, one, other, 1);
    lemma_edits_behind(before, pair, swapped, 1);
    assert(before + seq![c] + after =~= before + one);
    assert(before + seq![d] + after =~= before + other);
    assert(before + seq![c, d] + after =~= before + pair);
    assert(before + seq![d, c] + after =~= before + swapped);
}

/// What holds a phrase holds each of its tokens.
pub proof fn law_phrase_holds_its_tokens(
    d: IndexedV,
    field: int,
    tokens: Seq<Seq<char>>,
    k: int,
)
    requires
        holds_phrase(d, field, tokens),
        0 <= k < tokens.len(),
    ensures
        has_token(d, field, |t: Seq<char>| t == tokens[k]),
{
    let (i, start) = choose|i: int, start: int|
        0 <= i < d.texts.len() && (#[trigger] d.texts[i]).field == field && #[trigger] phrase_at(
            d.texts[i].tokens,
            tokens,
            start,
        );
    let text = d.texts[i].tokens;
    assert(token_at(text, tokens[k], start + k));
    let j = choose|j: int|
        0 <= j < text.len() && (#[trigger] text[j]).position == start + k && text[j].token
            == tokens[k] && fits_token(tokens[k]);
    assert(d.texts[i].tokens[j].token == tokens[k]);
}

} // verus!
