//! Simple queries: clauses, search modes, and query types.
use crate::filter::token::{left, past};
use crate::storage::keyed::{CopyItem, Keyed, KeyedList};
use crate::text::{
    all_digits, ascii_lowercase, cat3, cat5, chars_of, debug_text, digits_only, find_space,
    is_space, last_word_end, next_space, next_word, opt_text, quoted, same_text, space,
    text_between, texts, to_ascii_lowercase, trim, trimmed,
};
use vstd::prelude::*;

verus! {

/// One clause of a parsed simple query: a single term, a quoted phrase, or a
/// fuzzy term (`term~` / `term~N`, Lucene-style trailing-tilde syntax).
#[derive(Debug, PartialEq, Eq)]
pub enum Clause {
    Term(String),
    Phrase(String),
    FuzzyTerm { term: String, distance: u8 },
}

/// The mathematical value of a [`Clause`].
pub enum ClauseV {
    Term(Seq<char>),
    Phrase(Seq<char>),
    FuzzyTerm { term: Seq<char>, distance: u8 },
}

impl View for Clause {
    type V = ClauseV;

    open spec fn view(&self) -> ClauseV {
        match self {
            Clause::Term(t) => ClauseV::Term(t@),
            Clause::Phrase(t) => ClauseV::Phrase(t@),
            Clause::FuzzyTerm { term, distance } => ClauseV::FuzzyTerm {
                term: term@,
                distance: *distance,
            },
        }
    }
}

pub open spec fn clause_views(v: Seq<Clause>) -> Seq<ClauseV> {
    v.map_values(|c: Clause| c@)
}

pub broadcast proof fn lemma_clause_views_push(v: Seq<Clause>, c: Clause)
    ensures
        #[trigger] clause_views(v.push(c)) == clause_views(v).push(c@),
{
    assert(clause_views(v.push(c)) =~= clause_views(v).push(c@));
}

/// How multi-term required clauses combine: `All` (AND, every clause must
/// match) or `Any` (OR, at least one clause must match).
#[derive(Debug, Clone, Copy, PartialEq, Eq, Structural)]
pub enum SearchMode {
    /// Every required clause must match (AND).
    All,
    /// At least one required clause must match (OR). This is the default.
    Any,
}

impl Default for SearchMode {
    fn default() -> (r: SearchMode)
        ensures
            r == SearchMode::Any,
    {
        SearchMode::Any
    }
}

pub open spec fn search_mode_of(value: Seq<char>) -> Result<SearchMode, Seq<char>> {
    let lowered = ascii_lowercase(value);
    if lowered == "all"@ {
        Ok(SearchMode::All)
    } else if lowered == "any"@ {
        Ok(SearchMode::Any)
    } else {
        Err(
            "Invalid searchMode "@ + debug_text(lowered) + "; supported values: 'all', 'any'."@,
        )
    }
}

impl SearchMode {
    /// Parses a `searchMode` value: `all` or `any`, in any case.
    pub fn parse(value: &str) -> (r: Result<SearchMode, String>)
        ensures
            match r {
                Ok(m) => search_mode_of(value@) == Ok::<_, Seq<char>>(m),
                Err(e) => search_mode_of(value@) == Err::<SearchMode, _>(e@),
            },
    {
        let lowered = to_ascii_lowercase(value);
        if same_text(lowered.as_str(), "all") {
            Ok(SearchMode::All)
        } else if same_text(lowered.as_str(), "any") {
            Ok(SearchMode::Any)
        } else {
            Err(
                cat3(
                    "Invalid searchMode ",
                    quoted(lowered.as_str()).as_str(),
                    "; supported values: 'all', 'any'.",
                ),
            )
        }
    }
}

/// The `queryType` of a search: `simple` (the default), `full` (Lucene
/// syntax), or `semantic` (with extractive answers and captions).
#[derive(Debug, Clone, Copy, PartialEq, Eq, Structural)]
pub enum QueryType {
    /// Simple-query semantics (the default).
    Simple,
    /// Lucene query syntax (`AND`/`OR`/`NOT`, `field:term`, `term~N`,
    /// `term*`, ranges, `^N` boosts).
    Full,
    /// Semantic search (extractive answers, captions, reranker).
    Semantic,
}

impl Default for QueryType {
    fn default() -> (r: QueryType)
        ensures
            r == QueryType::Simple,
    {
        QueryType::Simple
    }
}

pub open spec fn query_type_of(value: Seq<char>) -> Result<QueryType, Seq<char>> {
    let lowered = ascii_lowercase(value);
    if lowered == "simple"@ {
        Ok(QueryType::Simple)
    } else if lowered == "full"@ {
        Ok(QueryType::Full)
    } else if lowered == "semantic"@ {
        Ok(QueryType::Semantic)
    } else {
        Err(
            "Invalid queryType "@ + debug_text(lowered)
                + "; supported values: 'simple', 'full', 'semantic'."@,
        )
    }
}

impl QueryType {
    /// Parses a `queryType` value: `simple`, `full` or `semantic`, in any case.
    pub fn parse(value: &str) -> (r: Result<QueryType, String>)
        ensures
            match r {
                Ok(t) => query_type_of(value@) == Ok::<_, Seq<char>>(t),
                Err(e) => query_type_of(value@) == Err::<QueryType, _>(e@),
            },
    {
        let lowered = to_ascii_lowercase(value);
        if same_text(lowered.as_str(), "simple") {
            Ok(QueryType::Simple)
        } else if same_text(lowered.as_str(), "full") {
            Ok(QueryType::Full)
        } else if same_text(lowered.as_str(), "semantic") {
            Ok(QueryType::Semantic)
        } else {
            Err(
                cat3(
                    "Invalid queryType ",
                    quoted(lowered.as_str()).as_str(),
                    "; supported values: 'simple', 'full', 'semantic'.",
                ),
            )
        }
    }
}

// ---------------------------------------------------------------------------
// Clauses
// ---------------------------------------------------------------------------

/// The last place before `n` that holds `c`, or -1.
pub open spec fn last_at(s: Seq<char>, c: char, n: int) -> int
    decreases n,
{
    if n <= 0 {
        -1
    } else if s[n - 1] == c {
        n - 1
    } else {
        last_at(s, c, n - 1)
    }
}

/// The clause of a raw term: a trailing `~` (edit distance 2) or `~N` (distance
/// 0 to 2) marks a fuzzy term, of which distance 0 is a plain one.
pub open spec fn term_clause(raw: Seq<char>) -> Result<ClauseV, Seq<char>> {
    let tilde = last_at(raw, '~', raw.len() as int);
    if tilde < 0 {
        Ok(ClauseV::Term(raw))
    } else {
        let stem = raw.take(tilde);
        let suffix = raw.skip(tilde + 1);
        let marked = suffix == ""@ || suffix == "0"@ || suffix == "1"@ || suffix == "2"@;
        if !marked {
            if all_digits(suffix) {
                Err(
                    "Invalid fuzzy distance "@ + debug_text(suffix) + " in search term "@
                        + debug_text(raw)
                        + "; supported distances are 0-2 (e.g. `term~`, `term~2`)."@,
                )
            } else {
                Ok(ClauseV::Term(raw))
            }
        } else if stem.len() == 0 {
            Err("Search term "@ + debug_text(raw) + " has a fuzzy marker with no term."@)
        } else if suffix == "0"@ {
            Ok(ClauseV::Term(stem))
        } else if suffix == "1"@ {
            Ok(ClauseV::FuzzyTerm { term: stem, distance: 1 })
        } else {
            Ok(ClauseV::FuzzyTerm { term: stem, distance: 2 })
        }
    }
}

/// The text of a phrase whose characters start at `i`, with the place behind
/// its closing quote. A doubled quote stands for one.
pub open spec fn phrase_text(s: Seq<char>, i: int, text: Seq<char>) -> Option<(Seq<char>, int)>
    decreases s.len() - i,
{
    if i >= s.len() {
        None
    } else if s[i] == '"' {
        if i + 1 < s.len() && s[i + 1] == '"' {
            phrase_text(s, i + 2, text.push('"'))
        } else {
            Some((text, i + 1))
        }
    } else {
        phrase_text(s, i + 1, text.push(s[i]))
    }
}

/// The clause at a place, with the place behind it.
pub open spec fn clause_at(s: Seq<char>, p: int) -> Result<(ClauseV, int), Seq<char>> {
    if s[p] == '"' {
        match phrase_text(s, p + 1, seq![]) {
            None => Err("Unterminated quoted phrase in search text."@),
            Some((text, q)) => Ok((ClauseV::Phrase(text), q)),
        }
    } else {
        let q = next_space(s, p);
        match term_clause(s.subrange(p, q)) {
            Err(e) => Err(e),
            Ok(c) => Ok((c, q)),
        }
    }
}

/// The required and the excluded clauses from a place on, behind those in
/// `required` and `excluded`.
pub open spec fn clauses_from(
    s: Seq<char>,
    p: int,
    required: Seq<ClauseV>,
    excluded: Seq<ClauseV>,
) -> Result<(Seq<ClauseV>, Seq<ClauseV>), Seq<char>>
    decreases left(s.len(), p),
{
    if p >= s.len() {
        Ok((required, excluded))
    } else if is_space(s[p]) {
        clauses_from(s, p + 1, required, excluded)
    } else {
        let signed = s[p] == '+' || s[p] == '-';
        let start = if signed {
            p + 1
        } else {
            p
        };
        if signed && (start >= s.len() || is_space(s[start])) {
            Err("Search modifier '+' or '-' must be followed by a search term."@)
        } else {
            match clause_at(s, start) {
                Err(e) => Err(e),
                Ok((clause, q)) => if s[p] == '-' {
                    clauses_from(s, past(p, q), required, excluded.push(clause))
                } else {
                    clauses_from(s, past(p, q), required.push(clause), excluded)
                },
            }
        }
    }
}

/// The clauses of a search text. The empty text and `*` have none: they match
/// everything.
pub open spec fn search_clauses(text: Seq<char>) -> Result<
    (Seq<ClauseV>, Seq<ClauseV>),
    Seq<char>,
> {
    let s = trim(text);
    if s.len() == 0 || s == "*"@ {
        Ok((seq![], seq![]))
    } else {
        clauses_from(s, 0, seq![], seq![])
    }
}

pub open spec fn clause_result(r: Result<Clause, String>) -> Result<ClauseV, Seq<char>> {
    match r {
        Ok(c) => Ok(c@),
        Err(e) => Err(e@),
    }
}

/// Splits a raw term into a plain or fuzzy clause: a trailing `~` (the
/// default edit distance 2) or `~N` (explicit distance 0-2) marks a fuzzy
/// term.
pub fn split_fuzzy_suffix(raw: &str) -> (r: Result<Clause, String>)
    ensures
        clause_result(r) == term_clause(raw@),
{
    let s = chars_of(raw);
    let mut n: usize = s.len();
    while n > 0 && s[n - 1] != '~'
        invariant
            s@ == raw@,
            n <= s@.len(),
            last_at(s@, '~', s@.len() as int) == last_at(s@, '~', n as int),
        decreases n,
    {
        n -= 1;
    }
    if n == 0 {
        return Ok(Clause::Term(raw.to_owned()));
    }
    let stem = text_between(&s, 0, n - 1);
    let suffix = text_between(&s, n, s.len());
    assert(stem@ =~= raw@.take(n - 1));
    assert(suffix@ =~= raw@.skip(n as int));
    let zero = same_text(suffix.as_str(), "0");
    let one = same_text(suffix.as_str(), "1");
    let two = same_text(suffix.as_str(), "2") || same_text(suffix.as_str(), "");
    if !zero && !one && !two {
        assert(s@.skip(n as int) == suffix@);
        if digits_only(&s, n) {
            return Err(
                cat5(
                    "Invalid fuzzy distance ",
                    quoted(suffix.as_str()).as_str(),
                    " in search term ",
                    quoted(raw).as_str(),
                    "; supported distances are 0-2 (e.g. `term~`, `term~2`).",
                ),
            );
        }
        return Ok(Clause::Term(raw.to_owned()));
    }
    if stem.as_str().is_empty() {
        return Err(
            cat3("Search term ", quoted(raw).as_str(), " has a fuzzy marker with no term."),
        );
    }
    if zero {
        return Ok(Clause::Term(stem));
    }
    if one {
        return Ok(Clause::FuzzyTerm { term: stem, distance: 1 });
    }
    Ok(Clause::FuzzyTerm { term: stem, distance: 2 })
}

/// Reads one clause starting at `pos`, with the place behind it.
pub fn read_clause(s: &Vec<char>, pos: usize) -> (r: Result<(Clause, usize), String>)
    requires
        pos < s@.len(),
    ensures
        match r {
            Ok((c, q)) => clause_at(s@, pos as int) == Ok::<_, Seq<char>>((c@, q as int)) && q
                <= s@.len() && (!is_space(s@[pos as int]) ==> q > pos),
            Err(e) => clause_at(s@, pos as int) == Err::<(ClauseV, int), _>(e@),
        },
{
    let n: usize = s.len();
    if s[pos] == '"' {
        let mut text = String::new();
        let mut i: usize = pos + 1;
        assert(text@ =~= seq![]);
        while i < n
            invariant
                n == s@.len(),
                pos < i <= n,
                s@[pos as int] == '"',
                phrase_text(s@, pos + 1, seq![]) == phrase_text(s@, i as int, text@),
            decreases n - i,
        {
            if s[i] == '"' {
                if i + 1 < n && s[i + 1] == '"' {
                    text.push('"');
                    i += 2;
                } else {
                    return Ok((Clause::Phrase(text), i + 1));
                }
            } else {
                text.push(s[i]);
                i += 1;
            }
        }
        return Err("Unterminated quoted phrase in search text.".to_owned());
    }
    let end = find_space(s, pos);
    let raw = text_between(s, pos, end);
    let clause = split_fuzzy_suffix(raw.as_str())?;
    Ok((clause, end))
}

/// Parses a simple-query search text into required and excluded clauses.
///
/// Supports `+term` (required; the default), `-term` (excluded), `"quoted
/// phrases"`, and Lucene-style fuzzy terms (`term~` for the default edit
/// distance 2, `term~N` for an explicit distance 0-2). An empty text or `*`
/// produces a match-all query.
pub fn parse_search_text(text: &str) -> (r: Result<FullTextQuery, String>)
    ensures
        match r {
            Ok(q) => search_clauses(text@) == Ok::<_, Seq<char>>(
                (q@.required, q@.excluded),
            ) && q@ == (FullTextQueryV {
                required: q@.required,
                excluded: q@.excluded,
                ..default_query()
            }),
            Err(e) => search_clauses(text@) == Err::<(Seq<ClauseV>, Seq<ClauseV>), _>(e@),
        },
{
    broadcast use lemma_clause_views_push;

    let trimmed_text = trimmed(text);
    let mut query = FullTextQuery::default();
    if trimmed_text.as_str().is_empty() || same_text(trimmed_text.as_str(), "*") {
        return Ok(query);
    }
    let s = chars_of(trimmed_text.as_str());
    let mut required: Vec<Clause> = Vec::new();
    let mut excluded: Vec<Clause> = Vec::new();
    assert(clause_views(required@) =~= seq![]);
    assert(clause_views(excluded@) =~= seq![]);
    let n: usize = s.len();
    let mut pos: usize = 0;
    while pos < n
        invariant
            n == s@.len(),
            pos <= n,
            search_clauses(text@) == clauses_from(
                s@,
                pos as int,
                clause_views(required@),
                clause_views(excluded@),
            ),
        decreases n - pos,
    {
        if space(s[pos]) {
            pos += 1;
            continue ;
        }
        let minus = s[pos] == '-';
        let signed = minus || s[pos] == '+';
        let start: usize = if signed {
            pos + 1
        } else {
            pos
        };
        if signed && (start >= n || space(s[start])) {
            return Err("Search modifier '+' or '-' must be followed by a search term.".to_owned());
        }
        let (clause, next) = read_clause(&s, start)?;
        if minus {
            let ghost before = clause_views(excluded@);
            excluded.push(clause);
            assert(clause_views(excluded@) == before.push(clause@));
        } else {
            let ghost before = clause_views(required@);
            required.push(clause);
            assert(clause_views(required@) == before.push(clause@));
        }
        pos = next;
    }
    query.required = required;
    query.excluded = excluded;
    Ok(query)
}

// ---------------------------------------------------------------------------
// Full-text queries
// ---------------------------------------------------------------------------

/// One parsed `searchFields` entry: a field name with its score boost from an
/// optional `field^N` weight. The boost is a binary64 number, by its rank (see
/// [`crate::json::Number`]).
#[derive(Debug, PartialEq, Eq)]
pub struct SearchField {
    pub name: String,
    pub boost: u64,
}

/// The mathematical value of a [`SearchField`].
pub struct SearchFieldV {
    pub name: Seq<char>,
    pub boost: u64,
}

impl View for SearchField {
    type V = SearchFieldV;

    open spec fn view(&self) -> SearchFieldV {
        SearchFieldV { name: self.name@, boost: self.boost }
    }
}

impl Keyed for SearchField {
    open spec fn key_of_item(item: SearchFieldV) -> Seq<char> {
        item.name
    }

    fn key(&self) -> (r: &str) {
        self.name.as_str()
    }
}

impl CopyItem for SearchField {
    fn copy_item(&self) -> (r: SearchField) {
        SearchField { name: self.name.clone(), boost: self.boost }
    }
}

/// A query term with the terms that its synonyms add.
#[derive(Debug, PartialEq, Eq)]
pub struct Expansion {
    pub term: String,
    pub added: Vec<String>,
}

/// The mathematical value of an [`Expansion`].
pub struct ExpansionV {
    pub term: Seq<char>,
    pub added: Seq<Seq<char>>,
}

impl View for Expansion {
    type V = ExpansionV;

    open spec fn view(&self) -> ExpansionV {
        ExpansionV { term: self.term@, added: texts(self.added@) }
    }
}

pub open spec fn expansion_views(v: Seq<Expansion>) -> Seq<ExpansionV> {
    v.map_values(|e: Expansion| e@)
}

pub broadcast proof fn lemma_expansion_views_push(v: Seq<Expansion>, e: Expansion)
    ensures
        #[trigger] expansion_views(v.push(e)) == expansion_views(v).push(e@),
{
    assert(expansion_views(v.push(e)) =~= expansion_views(v).push(e@));
}

/// A parsed full-text query: required and excluded clauses (for
/// `queryType=simple`), or raw Lucene text (for `queryType=full`), optionally
/// restricted to a set of field names.
pub struct FullTextQuery {
    pub required: Vec<Clause>,
    pub excluded: Vec<Clause>,
    /// Raw Lucene query text for `queryType=full`; when `Some`, the clauses
    /// are ignored and the text is parsed by the engine's query parser.
    pub lucene: Option<String>,
    /// Synonym expansions: each matches alongside its term.
    pub synonyms: Vec<Expansion>,
    /// Field names to restrict the search to; `None` means all `searchable`
    /// fields.
    pub fields: Option<Vec<String>>,
    /// Per-field score boosts from `searchFields` weights (`field^N`), by
    /// name; absent entries mean no boost.
    pub boosts: KeyedList<SearchField>,
    /// How required clauses combine (simple queries); for Lucene queries it
    /// selects the default operator between space-separated terms.
    pub mode: SearchMode,
}

/// The mathematical value of a [`FullTextQuery`].
pub struct FullTextQueryV {
    pub required: Seq<ClauseV>,
    pub excluded: Seq<ClauseV>,
    pub lucene: Option<Seq<char>>,
    pub synonyms: Seq<ExpansionV>,
    pub fields: Option<Seq<Seq<char>>>,
    pub boosts: Seq<SearchFieldV>,
    pub mode: SearchMode,
}

pub open spec fn opt_texts(o: Option<Vec<String>>) -> Option<Seq<Seq<char>>> {
    match o {
        Some(v) => Some(texts(v@)),
        None => None,
    }
}

impl View for FullTextQuery {
    type V = FullTextQueryV;

    open spec fn view(&self) -> FullTextQueryV {
        FullTextQueryV {
            required: clause_views(self.required@),
            excluded: clause_views(self.excluded@),
            lucene: opt_text(self.lucene),
            synonyms: expansion_views(self.synonyms@),
            fields: opt_texts(self.fields),
            boosts: self.boosts@,
            mode: self.mode,
        }
    }
}

/// The query without any clause, over all fields.
pub open spec fn default_query() -> FullTextQueryV {
    FullTextQueryV {
        required: seq![],
        excluded: seq![],
        lucene: None,
        synonyms: seq![],
        fields: None,
        boosts: seq![],
        mode: SearchMode::Any,
    }
}

impl Default for FullTextQuery {
    fn default() -> (r: FullTextQuery)
        ensures
            r@ == default_query(),
    {
        let r = FullTextQuery {
            required: Vec::new(),
            excluded: Vec::new(),
            lucene: None,
            synonyms: Vec::new(),
            fields: None,
            boosts: KeyedList::new(),
            mode: SearchMode::Any,
        };
        assert(clause_views(r.required@) =~= seq![]);
        assert(clause_views(r.excluded@) =~= seq![]);
        assert(expansion_views(r.synonyms@) =~= seq![]);
        assert(r.boosts@ =~= seq![]);
        r
    }
}

impl FullTextQueryV {
    /// Whether the query matches every document.
    pub open spec fn matches_all(self) -> bool {
        self.lucene is None && self.required.len() == 0 && self.excluded.len() == 0
    }
}

impl FullTextQuery {
    /// Returns `true` when the query matches every document.
    pub fn is_match_all(&self) -> (r: bool)
        ensures
            r == self@.matches_all(),
    {
        self.lucene.is_none() && self.required.len() == 0 && self.excluded.len() == 0
    }
}

/// A blank text matches everything.
pub proof fn law_blank_text_matches_all(text: Seq<char>)
    requires
        forall|i: int| 0 <= i < text.len() ==> is_space(#[trigger] text[i]),
    ensures
        search_clauses(text) == Ok::<_, Seq<char>>((Seq::<ClauseV>::empty(), Seq::<ClauseV>::empty())),
{
    lemma_blank(text, 0);
    lemma_blank_end(text, text.len() as int);
    assert(trim(text).len() == 0);
}

proof fn lemma_blank(s: Seq<char>, i: int)
    requires
        0 <= i <= s.len(),
        forall|k: int| 0 <= k < s.len() ==> is_space(#[trigger] s[k]),
    ensures
        next_word(s, i) == s.len(),
    decreases s.len() - i,
{
    if i < s.len() {
        lemma_blank(s, i + 1);
    }
}

proof fn lemma_blank_end(s: Seq<char>, n: int)
    requires
        0 <= n <= s.len(),
    ensures
        last_word_end(s, n) <= s.len(),
    decreases n,
{
    if n > 0 {
        lemma_blank_end(s, n - 1);
    }
}

} // verus!
