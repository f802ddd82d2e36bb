//! Synonym maps: Solr-format rules and their validation.
use crate::error::{ApiError, ApiErrorV, ErrorCode, bad_request_v};
use crate::json::{Json, JsonMap, JsonV, group_json, members};
use crate::storage::keyed::{CopyItem, Keyed, KeyedList};
use crate::text::{
    cat2, cat3, chars_of, clone_texts, debug_text, decimal, decimal_text, extend_texts,
    holds_text, lemma_texts_push, lowercase, pieces, pieces_from, quoted, same_text, split_on,
    split_words, text_between, texts, to_lowercase, trim, trimmed, words,
};
use crate::text_set::{law_sorted_texts, sort_texts, sorted_texts};
use vstd::prelude::*;

verus! {

/// One parsed Solr synonym rule: `inputs` (matched query terms) rewrite to
/// `outputs` (additional query terms). For `a,b,c` every term is both an input
/// and an output; for `a => b` only `a` is an input. Multi-word sides
/// contribute each word separately; terms are lowercased.
#[derive(Debug, PartialEq, Eq)]
pub struct SynonymRule {
    pub inputs: Vec<String>,
    pub outputs: Vec<String>,
}

/// The mathematical value of a [`SynonymRule`].
pub struct RuleV {
    pub inputs: Seq<Seq<char>>,
    pub outputs: Seq<Seq<char>>,
}

impl View for SynonymRule {
    type V = RuleV;

    open spec fn view(&self) -> RuleV {
        RuleV { inputs: texts(self.inputs@), outputs: texts(self.outputs@) }
    }
}

pub open spec fn rule_views(v: Seq<SynonymRule>) -> Seq<RuleV> {
    v.map_values(|r: SynonymRule| r@)
}

pub broadcast proof fn lemma_rule_views_push(v: Seq<SynonymRule>, r: SynonymRule)
    ensures
        #[trigger] rule_views(v.push(r)) == rule_views(v).push(r@),
{
    assert(rule_views(v.push(r)) =~= rule_views(v).push(r@));
}

// ---------------------------------------------------------------------------
// Rules
// ---------------------------------------------------------------------------

/// The first `n` words, lowercased.
pub open spec fn lowered_words(words: Seq<Seq<char>>) -> Seq<Seq<char>> {
    words.map_values(|w: Seq<char>| lowercase(w))
}

pub open spec fn empty_term(rule_no: nat) -> Seq<char> {
    "Synonym rule "@ + decimal(rule_no) + " has an empty term; terms must be non-empty."@
}

/// The terms of the phrases from `i` on, behind those in `done`.
pub open spec fn side_terms(
    phrases: Seq<Seq<char>>,
    i: int,
    done: Seq<Seq<char>>,
    rule_no: nat,
) -> Result<Seq<Seq<char>>, Seq<char>>
    decreases phrases.len() - i,
{
    if i >= phrases.len() {
        Ok(done)
    } else if words(phrases[i]).len() == 0 {
        Err(empty_term(rule_no))
    } else {
        side_terms(phrases, i + 1, done + lowered_words(words(phrases[i])), rule_no)
    }
}

/// The terms of one side of a rule.
pub open spec fn synonym_terms(side: Seq<char>, rule_no: nat) -> Result<
    Seq<Seq<char>>,
    Seq<char>,
> {
    side_terms(pieces(side, ','), 0, seq![], rule_no)
}

/// The first place at or after `i` of an arrow `=>`, or the length.
pub open spec fn next_arrow(s: Seq<char>, i: int) -> int
    decreases s.len() - i,
{
    if i + 1 >= s.len() {
        s.len() as int
    } else if s[i] == '=' && s[i + 1] == '>' {
        i
    } else {
        next_arrow(s, i + 1)
    }
}

/// The rule that a trimmed line writes.
pub open spec fn rule_of(line: Seq<char>, rule_no: nat) -> Result<RuleV, Seq<char>> {
    let at = next_arrow(line, 0);
    if at < line.len() {
        match synonym_terms(line.take(at), rule_no) {
            Err(e) => Err(e),
            Ok(inputs) => match synonym_terms(line.skip(at + 2), rule_no) {
                Err(e) => Err(e),
                Ok(outputs) => Ok(RuleV { inputs, outputs }),
            },
        }
    } else {
        match synonym_terms(line, rule_no) {
            Err(e) => Err(e),
            Ok(terms) => Ok(RuleV { inputs: terms, outputs: terms }),
        }
    }
}

/// The rules of the lines from `i` on, behind those in `done`. Blank lines are
/// skipped.
pub open spec fn rules_from(lines: Seq<Seq<char>>, i: int, done: Seq<RuleV>) -> Result<
    Seq<RuleV>,
    Seq<char>,
>
    decreases lines.len() - i,
{
    if i >= lines.len() {
        Ok(done)
    } else {
        let line = trim(lines[i]);
        if line.len() == 0 {
            rules_from(lines, i + 1, done)
        } else {
            match rule_of(line, (i + 1) as nat) {
                Err(e) => Err(e),
                Ok(rule) => rules_from(lines, i + 1, done.push(rule)),
            }
        }
    }
}

/// The rules of a synonym map.
pub open spec fn rules_of(synonyms: Seq<char>) -> Result<Seq<RuleV>, Seq<char>> {
    rules_from(pieces(synonyms, '\n'), 0, seq![])
}

/// Splits one side of a synonym rule into lowercase terms: comma-separated
/// phrases, each split on whitespace.
pub fn split_synonym_terms(side: &str, rule_no: usize) -> (r: Result<Vec<String>, String>)
    ensures
        match r {
            Ok(v) => synonym_terms(side@, rule_no as nat) == Ok::<_, Seq<char>>(texts(v@)),
            Err(e) => synonym_terms(side@, rule_no as nat) == Err::<Seq<Seq<char>>, _>(e@),
        },
{
    broadcast use lemma_texts_push;

    let phrases = split_on(side, ',');
    let ghost all = texts(phrases@);
    let mut terms: Vec<String> = Vec::new();
    let mut i: usize = 0;
    assert(texts(terms@) =~= seq![]);
    while i < phrases.len()
        invariant
            all == texts(phrases@),
            i <= phrases@.len(),
            synonym_terms(side@, rule_no as nat) == side_terms(
                all,
                i as int,
                texts(terms@),
                rule_no as nat,
            ),
        decreases phrases@.len() - i,
    {
        assert(all[i as int] == phrases@[i as int]@);
        let list = split_words(phrases[i].as_str());
        if list.len() == 0 {
            return Err(
                cat3(
                    "Synonym rule ",
                    decimal_text(rule_no as u64).as_str(),
                    " has an empty term; terms must be non-empty.",
                ),
            );
        }
        let ghost start = texts(terms@);
        let ghost more = lowered_words(texts(list@));
        let mut k: usize = 0;
        assert(start + more.take(0) =~= start);
        while k < list.len()
            invariant
                more == lowered_words(texts(list@)),
                k <= list@.len(),
                texts(terms@) == start + more.take(k as int),
            decreases list@.len() - k,
        {
            let ghost before = texts(terms@);
            let word = to_lowercase(list[k].as_str());
            terms.push(word);
            assert(texts(terms@) == before.push(word@));
            assert(more[k as int] == word@);
            k += 1;
            assert(texts(terms@) =~= start + more.take(k as int));
        }
        assert(more.take(more.len() as int) =~= more);
        i += 1;
    }
    Ok(terms)
}

fn find_arrow(s: &Vec<char>) -> (r: usize)
    ensures
        r == next_arrow(s@, 0),
        r == s@.len() || r + 2 <= s@.len(),
{
    let n: usize = s.len();
    let mut i: usize = 0;
    while n >= 2 && i < n - 1
        invariant
            n == s@.len(),
            i <= n,
            next_arrow(s@, 0) == next_arrow(s@, i as int),
        decreases n - i,
    {
        if s[i] == '=' && s[i + 1] == '>' {
            return i;
        }
        i += 1;
    }
    n
}

fn parse_rule(line: &str, rule_no: usize) -> (r: Result<SynonymRule, String>)
    ensures
        match r {
            Ok(rule) => rule_of(line@, rule_no as nat) == Ok::<_, Seq<char>>(rule@),
            Err(e) => rule_of(line@, rule_no as nat) == Err::<RuleV, _>(e@),
        },
{
    let s = chars_of(line);
    let at = find_arrow(&s);
    if at < s.len() {
        let left_side = text_between(&s, 0, at);
        let right_side = text_between(&s, at + 2, s.len());
        assert(left_side@ =~= line@.take(at as int));
        assert(right_side@ =~= line@.skip(at + 2));
        let inputs = split_synonym_terms(left_side.as_str(), rule_no)?;
        let outputs = split_synonym_terms(right_side.as_str(), rule_no)?;
        return Ok(SynonymRule { inputs, outputs });
    }
    let inputs = split_synonym_terms(line, rule_no)?;
    let outputs = clone_texts(&inputs);
    Ok(SynonymRule { inputs, outputs })
}

/// Parses Solr synonym-map rules: one rule per line, either equivalent terms
/// (`USA, United States, America`) or an explicit mapping (`Washington,
/// Wash. => WA`). Blank lines are skipped. A rule with an empty side or an
/// empty term is an error.
pub fn parse_synonym_rules(synonyms: &str) -> (r: Result<Vec<SynonymRule>, String>)
    ensures
        match r {
            Ok(v) => rules_of(synonyms@) == Ok::<_, Seq<char>>(rule_views(v@)),
            Err(e) => rules_of(synonyms@) == Err::<Seq<RuleV>, _>(e@),
        },
{
    broadcast use lemma_rule_views_push;

    let lines = split_on(synonyms, '\n');
    let ghost all = texts(lines@);
    let n: usize = lines.len();
    let mut rules: Vec<SynonymRule> = Vec::new();
    let mut i: usize = 0;
    assert(rule_views(rules@) =~= seq![]);
    while i < n
        invariant
            n == lines@.len(),
            all == texts(lines@),
            i <= n,
            rules_of(synonyms@) == rules_from(all, i as int, rule_views(rules@)),
        decreases n - i,
    {
        assert(all[i as int] == lines@[i as int]@);
        let line = trimmed(lines[i].as_str());
        if !line.as_str().is_empty() {
            let rule = parse_rule(line.as_str(), i + 1)?;
            let ghost before = rule_views(rules@);
            rules.push(rule);
            assert(rule_views(rules@) == before.push(rule@));
        }
        i += 1;
    }
    Ok(rules)
}

// ---------------------------------------------------------------------------
// Maps
// ---------------------------------------------------------------------------

/// A synonym map: a named collection of synonym rules in Solr format.
/// Synonym maps apply to search: query terms matching a rule's inputs also
/// match its outputs.
#[derive(Debug, PartialEq, Eq)]
pub struct SynonymMap {
    pub name: String,
    /// Always `"solr"`; the only format that is supported.
    pub format: String,
    /// The synonym rules joined by newlines (the wire format the SDKs use).
    pub synonyms: String,
    /// The parsed rules, for query-time expansion.
    pub rules: Vec<SynonymRule>,
    /// Opaque entity tag, bumped on every create or update.
    pub etag: String,
}

/// The mathematical value of a [`SynonymMap`].
pub struct SynonymMapV {
    pub name: Seq<char>,
    pub format: Seq<char>,
    pub synonyms: Seq<char>,
    pub rules: Seq<RuleV>,
    pub etag: Seq<char>,
}

impl View for SynonymMap {
    type V = SynonymMapV;

    open spec fn view(&self) -> SynonymMapV {
        SynonymMapV {
            name: self.name@,
            format: self.format@,
            synonyms: self.synonyms@,
            rules: rule_views(self.rules@),
            etag: self.etag@,
        }
    }
}

pub(crate) fn clone_rules(rules: &Vec<SynonymRule>) -> (r: Vec<SynonymRule>)
    ensures
        rule_views(r@) == rule_views(rules@),
{
    broadcast use lemma_rule_views_push;

    let ghost all = rule_views(rules@);
    let mut out: Vec<SynonymRule> = Vec::new();
    let mut i: usize = 0;
    assert(rule_views(out@) =~= all.take(0));
    while i < rules.len()
        invariant
            all == rule_views(rules@),
            i <= rules@.len(),
            rule_views(out@) == all.take(i as int),
        decreases rules@.len() - i,
    {
        let ghost before = rule_views(out@);
        let rule = SynonymRule {
            inputs: clone_texts(&rules[i].inputs),
            outputs: clone_texts(&rules[i].outputs),
        };
        out.push(rule);
        assert(rule_views(out@) == before.push(rule@));
        assert(all[i as int] == rule@);
        i += 1;
        assert(rule_views(out@) =~= all.take(i as int));
    }
    assert(all.take(all.len() as int) =~= all);
    out
}

impl Keyed for SynonymMap {
    open spec fn key_of_item(item: SynonymMapV) -> Seq<char> {
        item.name
    }

    fn key(&self) -> (r: &str) {
        self.name.as_str()
    }
}

impl CopyItem for SynonymMap {
    fn copy_item(&self) -> (r: SynonymMap) {
        SynonymMap {
            name: self.name.clone(),
            format: self.format.clone(),
            synonyms: self.synonyms.clone(),
            rules: clone_rules(&self.rules),
            etag: self.etag.clone(),
        }
    }
}

/// The JSON members of a synonym map, in the order of their keys.
pub open spec fn synonym_map_members(m: SynonymMapV) -> Seq<(Seq<char>, JsonV)> {
    seq![
        ("@odata.etag"@, JsonV::String(m.etag)),
        ("format"@, JsonV::String(m.format)),
        ("name"@, JsonV::String(m.name)),
        ("synonyms"@, JsonV::String(m.synonyms)),
    ]
}

impl SynonymMap {
    /// The JSON representation returned by the synonym-map routes.
    pub fn to_value(&self) -> (r: Json)
        ensures
            r@ == JsonV::Object(synonym_map_members(self@)),
    {
        broadcast use group_json;

        let mut entries: Vec<(String, Json)> = Vec::new();
        entries.push(("@odata.etag".to_owned(), Json::String(self.etag.clone())));
        entries.push(("format".to_owned(), Json::String(self.format.clone())));
        entries.push(("name".to_owned(), Json::String(self.name.clone())));
        entries.push(("synonyms".to_owned(), Json::String(self.synonyms.clone())));
        assert(members(entries@) =~= synonym_map_members(self@));
        Json::Object(JsonMap { entries })
    }
}

/// Whether a synonym-map definition is valid: a name, the `solr` format, and at
/// least one well-formed rule.
pub open spec fn synonym_map_check(
    name: Seq<char>,
    format: Seq<char>,
    synonyms: Seq<char>,
) -> Result<Seq<RuleV>, ApiErrorV> {
    let code = ErrorCode::InvalidSynonymMap;
    if name.len() == 0 {
        Err(bad_request_v(code, "The synonym map name is required."@))
    } else if format != "solr"@ {
        Err(
            bad_request_v(
                code,
                "Synonym map format "@ + debug_text(format)
                    + " is not supported; only \"solr\" is supported."@,
            ),
        )
    } else {
        match rules_of(synonyms) {
            Ok(rules) => if rules.len() == 0 {
                Err(
                    bad_request_v(
                        code,
                        "The synonym map must contain at least one synonym rule."@,
                    ),
                )
            } else {
                Ok(rules)
            },
            Err(e) => Err(bad_request_v(code, "Invalid synonym rules: "@ + e)),
        }
    }
}

/// Validates a synonym-map definition: a non-empty name, the `solr` format, and
/// well-formed synonym rules (at least one non-blank rule; every rule needs
/// non-empty sides and terms).
pub fn validate_synonym_map(name: &str, format: &str, synonyms: &str) -> (r: Result<(), ApiError>)
    ensures
        match r {
            Ok(()) => synonym_map_check(name@, format@, synonyms@) is Ok,
            Err(e) => synonym_map_check(name@, format@, synonyms@) == Err::<Seq<RuleV>, _>(e@),
        },
{
    checked_rules(name, format, synonyms)?;
    Ok(())
}

/// The rules of a valid synonym-map definition.
pub(crate) fn checked_rules(name: &str, format: &str, synonyms: &str) -> (r: Result<
    Vec<SynonymRule>,
    ApiError,
>)
    ensures
        match r {
            Ok(v) => synonym_map_check(name@, format@, synonyms@) == Ok::<_, ApiErrorV>(
                rule_views(v@),
            ),
            Err(e) => synonym_map_check(name@, format@, synonyms@) == Err::<Seq<RuleV>, _>(e@),
        },
{
    let code = ErrorCode::InvalidSynonymMap;
    if name.is_empty() {
        return Err(ApiError::bad_request(code, "The synonym map name is required."));
    }
    if !same_text(format, "solr") {
        return Err(
            ApiError::bad_request(
                code,
                cat3(
                    "Synonym map format ",
                    quoted(format).as_str(),
                    " is not supported; only \"solr\" is supported.",
                ).as_str(),
            ),
        );
    }
    match parse_synonym_rules(synonyms) {
        Ok(rules) => {
            if rules.len() == 0 {
                return Err(
                    ApiError::bad_request(
                        code,
                        "The synonym map must contain at least one synonym rule.",
                    ),
                );
            }
            Ok(rules)
        },
        Err(e) => Err(
            ApiError::bad_request(code, cat2("Invalid synonym rules: ", e.as_str()).as_str()),
        ),
    }
}

// ---------------------------------------------------------------------------
// Expansion
// ---------------------------------------------------------------------------

/// The outputs of those of the first `n` rules that have a word as input.
pub open spec fn rule_outputs(rules: Seq<RuleV>, n: int, word: Seq<char>) -> Seq<Seq<char>>
    decreases n,
{
    if n <= 0 {
        seq![]
    } else {
        let rest = rule_outputs(rules, n - 1, word);
        if rules[n - 1].inputs.contains(word) {
            rest + rules[n - 1].outputs
        } else {
            rest
        }
    }
}

/// The outputs of the rules of the first `n` maps for a word.
pub open spec fn map_outputs(maps: Seq<SynonymMapV>, n: int, word: Seq<char>) -> Seq<Seq<char>>
    decreases n,
{
    if n <= 0 {
        seq![]
    } else {
        map_outputs(maps, n - 1, word) + rule_outputs(
            maps[n - 1].rules,
            maps[n - 1].rules.len() as int,
            word,
        )
    }
}

/// A list without a text.
pub open spec fn without_text(list: Seq<Seq<char>>, x: Seq<char>) -> Seq<Seq<char>>
    decreases list.len(),
{
    if list.len() == 0 {
        seq![]
    } else {
        let rest = without_text(list.drop_last(), x);
        if list.last() == x {
            rest
        } else {
            rest.push(list.last())
        }
    }
}

/// The expansions of a word: the outputs of all rules that have it as input, in
/// order, each once, without the word itself.
pub open spec fn expansions_of(maps: Seq<SynonymMapV>, word: Seq<char>) -> Seq<Seq<char>> {
    let lowered = lowercase(word);
    without_text(sorted_texts(map_outputs(maps, maps.len() as int, lowered)), lowered)
}

/// Returns the raw synonym outputs for a query word: the union of outputs
/// from all rules (across all maps) with a matching input (case-insensitive),
/// excluding the word itself.
pub fn synonym_expansions(maps: &KeyedList<SynonymMap>, word: &str) -> (r: Vec<String>)
    ensures
        texts(r@) == expansions_of(maps@, word@),
{
    broadcast use lemma_texts_push;

    let lowered = to_lowercase(word);
    let mut outputs: Vec<String> = Vec::new();
    let mut i: usize = 0;
    assert(texts(outputs@) =~= seq![]);
    while i < maps.len()
        invariant
            i <= maps@.len(),
            lowered@ == lowercase(word@),
            texts(outputs@) == map_outputs(maps@, i as int, lowered@),
        decreases maps@.len() - i,
    {
        let map = maps.at(i);
        let ghost rules = rule_views(map.rules@);
        let ghost start = texts(outputs@);
        let mut k: usize = 0;
        assert(start + rule_outputs(rules, 0, lowered@) =~= start);
        while k < map.rules.len()
            invariant
                rules == rule_views(map.rules@),
                k <= map.rules@.len(),
                texts(outputs@) == start + rule_outputs(rules, k as int, lowered@),
            decreases map.rules@.len() - k,
        {
            assert(rules[k as int] == map.rules@[k as int]@);
            if holds_text(&map.rules[k].inputs, lowered.as_str()) {
                extend_texts(&mut outputs, clone_texts(&map.rules[k].outputs));
                assert(texts(outputs@) =~= start + rule_outputs(rules, k + 1, lowered@));
            }
            k += 1;
        }
        i += 1;
    }
    let sorted = sort_texts(&outputs);
    let ghost all = texts(sorted@);
    let mut out: Vec<String> = Vec::new();
    let mut j: usize = 0;
    assert(texts(out@) =~= seq![]);
    assert(all.take(0) =~= seq![]);
    while j < sorted.len()
        invariant
            all == texts(sorted@),
            j <= sorted@.len(),
            texts(out@) == without_text(all.take(j as int), lowered@),
        decreases sorted@.len() - j,
    {
        proof {
            let t = all.take(j + 1);
            assert(t.drop_last() =~= all.take(j as int));
            assert(t.last() == sorted@[j as int]@);
        }
        if !same_text(sorted[j].as_str(), lowered.as_str()) {
            let ghost before = texts(out@);
            let item = sorted[j].clone();
            out.push(item);
            assert(texts(out@) == before.push(item@));
        }
        j += 1;
    }
    assert(all.take(all.len() as int) =~= all);
    out
}

// ---------------------------------------------------------------------------
// Laws
// ---------------------------------------------------------------------------

proof fn lemma_without_text(list: Seq<Seq<char>>, x: Seq<char>, y: Seq<char>)
    ensures
        without_text(list, x).contains(y) <==> list.contains(y) && y != x,
    decreases list.len(),
{
    if list.len() > 0 {
        let rest = list.drop_last();
        lemma_without_text(rest, x, y);
        let r = without_text(list, x);
        let inner = without_text(rest, x);
        if rest.contains(y) {
            let i = choose|i: int| 0 <= i < rest.len() && rest[i] == y;
            assert(list[i] == y);
        }
        if list.contains(y) && y != list.last() {
            let i = choose|i: int| 0 <= i < list.len() && list[i] == y;
            assert(rest[i] == y);
        }
        assert(list[list.len() - 1] == list.last());
        if list.last() != x {
            assert(r == inner.push(list.last()));
            assert(r[r.len() - 1] == list.last());
            if inner.contains(y) {
                let i = choose|i: int| 0 <= i < inner.len() && inner[i] == y;
                assert(r[i] == y);
            }
            if r.contains(y) && y != list.last() {
                let i = choose|i: int| 0 <= i < r.len() && r[i] == y;
                assert(inner[i] == y);
            }
        }
    }
}

/// The expansions of a word do not hold the word itself, whatever its case, and
/// hold exactly the outputs of the matching rules otherwise.
pub proof fn law_expansions(maps: Seq<SynonymMapV>, word: Seq<char>, term: Seq<char>)
    ensures
        expansions_of(maps, word).contains(term) <==> map_outputs(
            maps,
            maps.len() as int,
            lowercase(word),
        ).contains(term) && term != lowercase(word),
{
    let outputs = map_outputs(maps, maps.len() as int, lowercase(word));
    law_sorted_texts(outputs, term);
    lemma_without_text(sorted_texts(outputs), lowercase(word), term);
}

proof fn lemma_side_terms(
    phrases: Seq<Seq<char>>,
    i: int,
    done: Seq<Seq<char>>,
    rule_no: nat,
)
    requires
        side_terms(phrases, i, done, rule_no) is Ok,
        0 <= i,
    ensures
        side_terms(phrases, i, done, rule_no)->Ok_0.len() >= done.len(),
        i < phrases.len() ==> side_terms(phrases, i, done, rule_no)->Ok_0.len() > done.len(),
    decreases phrases.len() - i,
{
    if i < phrases.len() {
        lemma_side_terms(phrases, i + 1, done + lowered_words(words(phrases[i])), rule_no);
    }
}

proof fn lemma_pieces_nonempty(s: Seq<char>, sep: char, i: int)
    ensures
        pieces_from(s, sep, i).len() >= 1,
{
}

/// Every rule has terms on both of its sides.
pub proof fn law_rules_have_two_sides(line: Seq<char>, rule_no: nat)
    requires
        rule_of(line, rule_no) is Ok,
    ensures
        rule_of(line, rule_no)->Ok_0.inputs.len() > 0,
        rule_of(line, rule_no)->Ok_0.outputs.len() > 0,
{
    let at = next_arrow(line, 0);
    if at < line.len() {
        lemma_pieces_nonempty(line.take(at), ',', 0);
        lemma_pieces_nonempty(line.skip(at + 2), ',', 0);
        lemma_side_terms(pieces(line.take(at), ','), 0, seq![], rule_no);
        lemma_side_terms(pieces(line.skip(at + 2), ','), 0, seq![], rule_no);
    } else {
        lemma_pieces_nonempty(line, ',', 0);
        lemma_side_terms(pieces(line, ','), 0, seq![], rule_no);
    }
}

} // verus!
