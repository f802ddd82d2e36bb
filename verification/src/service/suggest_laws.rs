//! What autocomplete and suggest find, from what the documents hold.
use crate::filter::eval::satisfies;
use crate::filter::expr::FilterExprV;
use crate::json::JsonV;
use crate::service::highlights::{strings_among, strings_of, words_among};
use crate::service::suggest::{
    CandidateV, candidates_of, completions_of, distinct_words, document_words, first_candidates,
    law_completions_are_distinct, law_matching_words_hold_text, suggestions_of, words_of_values,
    words_with,
};
use crate::storage::definition::FieldV;
use crate::storage::document::{DocumentV, path_values};
use crate::text::{has_part, is_space, lowercase, words};
use crate::text_laws::{law_every_run_is_a_word, law_parts, one_word};
use vstd::prelude::*;

verus! {

proof fn lemma_strings_among(items: Seq<JsonV>, k: int)
    requires
        0 <= k < items.len(),
        items[k] is String,
    ensures
        strings_among(items).contains(items[k]->String_0),
    decreases items.len(),
{
    let all = strings_among(items);
    if k == items.len() - 1 {
        assert(items.last() == items[k]);
        assert(all[all.len() - 1] == items[k]->String_0);
    } else {
        let rest = items.drop_last();
        assert(rest[k] == items[k]);
        lemma_strings_among(rest, k);
        let i = choose|i: int|
            0 <= i < strings_among(rest).len() && strings_among(rest)[i] == items[k]->String_0;
        assert(all[i] == items[k]->String_0);
    }
}

/// Whether a value is a text, or a collection with the text in it.
pub open spec fn holds_string(v: JsonV, s: Seq<char>) -> bool {
    match v {
        JsonV::String(t) => s == t,
        JsonV::Array(items) => exists|k: int|
            0 <= k < items.len() && #[trigger] items[k] == JsonV::String(s),
        _ => false,
    }
}

/// Whether a text is a word of another: a run of characters without whitespace that
/// whitespace or an end of the text bounds.
pub open spec fn is_word_of(w: Seq<char>, s: Seq<char>) -> bool {
    exists|a: int, b: int|
        0 <= a < b <= s.len() && w == #[trigger] s.subrange(a, b) && one_word(w) && (a > 0
            ==> is_space(s[a - 1])) && (b < s.len() ==> is_space(s[b]))
}

proof fn lemma_among(list: Seq<Seq<char>>, s: Seq<char>, w: Seq<char>)
    requires
        list.contains(s),
        is_word_of(w, s),
    ensures
        words_among(list).contains(w),
    decreases list.len(),
{
    let all = words_among(list);
    let before = words_among(list.drop_last());
    let own = words(list.last());
    if list.last() == s {
        let (a, b) = choose|a: int, b: int|
            0 <= a < b <= s.len() && w == #[trigger] s.subrange(a, b) && one_word(w) && (a > 0
                ==> is_space(s[a - 1])) && (b < s.len() ==> is_space(s[b]));
        law_every_run_is_a_word(s, a, b);
        let i = choose|i: int| 0 <= i < own.len() && own[i] == w;
        assert(all[before.len() + i] == w);
    } else {
        let k = choose|k: int| 0 <= k < list.len() && list[k] == s;
        assert(list.drop_last()[k] == s);
        lemma_among(list.drop_last(), s, w);
        let i = choose|i: int| 0 <= i < before.len() && before[i] == w;
        assert(all[i] == w);
    }
}

proof fn lemma_of_values(v: Seq<JsonV>, k: int, s: Seq<char>, w: Seq<char>)
    requires
        0 <= k < v.len(),
        holds_string(v[k], s),
        is_word_of(w, s),
    ensures
        words_of_values(v).contains(w),
    decreases v.len(),
{
    let all = words_of_values(v);
    let before = words_of_values(v.drop_last());
    let own = words_among(strings_of(v.last()));
    if k == v.len() - 1 {
        let list = strings_of(v.last());
        match v.last() {
            JsonV::String(t) => {
                assert(list[0] == s);
            },
            JsonV::Array(items) => {
                let m = choose|m: int|
                    0 <= m < items.len() && #[trigger] items[m] == JsonV::String(s);
                lemma_strings_among(items, m);
            },
            _ => {},
        }
        lemma_among(list, s, w);
        let i = choose|i: int| 0 <= i < own.len() && own[i] == w;
        assert(all[before.len() + i] == w);
    } else {
        assert(v.drop_last()[k] == v[k]);
        lemma_of_values(v.drop_last(), k, s, w);
        let i = choose|i: int| 0 <= i < before.len() && before[i] == w;
        assert(all[i] == w);
    }
}

proof fn lemma_of_document(
    d: DocumentV,
    fields: Seq<Seq<char>>,
    f: int,
    k: int,
    s: Seq<char>,
    w: Seq<char>,
)
    requires
        0 <= f < fields.len(),
        0 <= k < path_values(d.fields, fields[f]).len(),
        holds_string(path_values(d.fields, fields[f])[k], s),
        is_word_of(w, s),
    ensures
        document_words(d, fields).contains(w),
    decreases fields.len(),
{
    let all = document_words(d, fields);
    let before = document_words(d, fields.drop_last());
    let own = words_of_values(path_values(d.fields, fields.last()));
    if f == fields.len() - 1 {
        assert(fields.last() == fields[f]);
        lemma_of_values(path_values(d.fields, fields[f]), k, s, w);
        let i = choose|i: int| 0 <= i < own.len() && own[i] == w;
        assert(all[before.len() + i] == w);
    } else {
        assert(fields.drop_last()[f] == fields[f]);
        lemma_of_document(d, fields.drop_last(), f, k, s, w);
        let i = choose|i: int| 0 <= i < before.len() && before[i] == w;
        assert(all[i] == w);
    }
}

proof fn lemma_kept(list: Seq<Seq<char>>, needle: Seq<char>, w: Seq<char>)
    requires
        list.contains(w),
        has_part(lowercase(w), needle),
    ensures
        words_with(list, needle).contains(w),
    decreases list.len(),
{
    let all = words_with(list, needle);
    let before = words_with(list.drop_last(), needle);
    if list.last() == w {
        assert(all[all.len() - 1] == w);
    } else {
        let k = choose|k: int| 0 <= k < list.len() && list[k] == w;
        assert(list.drop_last()[k] == w);
        lemma_kept(list.drop_last(), needle, w);
        let i = choose|i: int| 0 <= i < before.len() && before[i] == w;
        assert(all[i] == w);
    }
}

/// Every word that holds the search text is found: for each document that passes the
/// filter, each search field, each text that the field holds, alone or in a collection,
/// and each word of the text that has the search text in it, whatever the case, the
/// document is a candidate and the word is among its words.
pub proof fn law_every_matching_word_is_found(
    docs: Seq<DocumentV>,
    fields: Seq<Seq<char>>,
    filter: Option<FilterExprV>,
    needle: Seq<char>,
    i: int,
    f: int,
    k: int,
    s: Seq<char>,
    w: Seq<char>,
) -> (at: int)
    requires
        0 <= i < docs.len(),
        filter matches Some(e) ==> satisfies(e, docs[i].fields),
        0 <= f < fields.len(),
        0 <= k < path_values(docs[i].fields, fields[f]).len(),
        holds_string(path_values(docs[i].fields, fields[f])[k], s),
        is_word_of(w, s),
        exists|a: Seq<char>, b: Seq<char>| lowercase(w) == #[trigger] (a + needle + b),
    ensures
        ({
            let c = candidates_of(docs, fields, filter, needle);
            &&& 0 <= at < c.len()
            &&& c[at].document == docs[i]
            &&& c[at].words.contains(w)
        }),
    decreases docs.len(),
{
    let all = candidates_of(docs, fields, filter, needle);
    let rest = candidates_of(docs.drop_last(), fields, filter, needle);
    if i == docs.len() - 1 {
        let d = docs.last();
        assert(d == docs[i]);
        let (a, b) = choose|a: Seq<char>, b: Seq<char>| lowercase(w) == #[trigger] (a + needle + b);
        law_parts(a, needle, b, lowercase(w));
        lemma_of_document(d, fields, f, k, s, w);
        let found = words_with(document_words(d, fields), needle);
        lemma_kept(document_words(d, fields), needle, w);
        assert(found.len() > 0) by {
            let m = choose|m: int| 0 <= m < found.len() && found[m] == w;
        }
        assert(all[rest.len() as int] == (CandidateV { document: d, words: found }));
        rest.len() as int
    } else {
        assert(docs.drop_last()[i] == docs[i]);
        let at = law_every_matching_word_is_found(
            docs.drop_last(),
            fields,
            filter,
            needle,
            i,
            f,
            k,
            s,
            w,
        );
        assert(all[at] == rest[at]);
        at
    }
}

/// Nothing else is found: each candidate is a document that passes the filter, and each
/// of its words has the search text in it, whatever the case. Candidates stand in the
/// order of the documents.
pub proof fn law_candidates_match(
    docs: Seq<DocumentV>,
    fields: Seq<Seq<char>>,
    filter: Option<FilterExprV>,
    needle: Seq<char>,
    at: int,
) -> (i: int)
    requires
        0 <= at < candidates_of(docs, fields, filter, needle).len(),
    ensures
        ({
            let c = candidates_of(docs, fields, filter, needle)[at];
            &&& 0 <= i < docs.len()
            &&& c.document == docs[i]
            &&& filter matches Some(e) ==> satisfies(e, docs[i].fields)
            &&& c.words.len() > 0
            &&& forall|k: int|
                0 <= k < c.words.len() ==> has_part(lowercase(#[trigger] c.words[k]), needle)
            &&& candidates_of(docs.take(i), fields, filter, needle) == candidates_of(
                docs,
                fields,
                filter,
                needle,
            ).take(at)
        }),
    decreases docs.len(),
{
    let all = candidates_of(docs, fields, filter, needle);
    let rest = candidates_of(docs.drop_last(), fields, filter, needle);
    if at < rest.len() {
        let i = law_candidates_match(docs.drop_last(), fields, filter, needle, at);
        assert(all[at] == rest[at]);
        assert(docs.drop_last()[i] == docs[i]);
        assert(docs.drop_last().take(i) =~= docs.take(i));
        assert(all.take(at) =~= rest.take(at));
        i
    } else {
        let i = docs.len() - 1;
        let d = docs.last();
        let list = document_words(d, fields);
        assert(all[at] == (CandidateV { document: d, words: words_with(list, needle) }));
        assert forall|k: int| 0 <= k < words_with(list, needle).len() implies has_part(
            lowercase(#[trigger] words_with(list, needle)[k]),
            needle,
        ) by {
            law_matching_words_hold_text(list, needle, k);
        }
        assert(docs.take(i) =~= docs.drop_last());
        assert(all.take(at) =~= rest);
        i
    }
}

/// The words of a document come field by field, and within a field value by value.
pub proof fn law_words_come_in_order(
    d: DocumentV,
    fields: Seq<Seq<char>>,
    field: Seq<char>,
    v: Seq<JsonV>,
    x: JsonV,
    s: Seq<char>,
)
    ensures
        document_words(d, fields.push(field)) == document_words(d, fields) + words_of_values(
            path_values(d.fields, field),
        ),
        words_of_values(v.push(x)) == words_of_values(v) + words_of_values(seq![x]),
        words_of_values(seq![JsonV::String(s)]) == words(s),
        words_of_values(seq![]) == Seq::<Seq<char>>::empty(),
{
    assert(fields.push(field).drop_last() =~= fields);
    assert(v.push(x).drop_last() =~= v);
    let none = Seq::<Seq<char>>::empty();
    assert(seq![x].drop_last() =~= seq![]);
    assert(words_of_values(seq![]) =~= none);
    assert(seq![x].last() == x);
    assert(none + words_among(strings_of(x)) =~= words_among(strings_of(x)));
    assert(words_of_values(seq![x]) =~= words_among(strings_of(x)));
    let t = JsonV::String(s);
    assert(seq![t].drop_last() =~= seq![]);
    assert(seq![s].drop_last() =~= none);
    assert(words_among(none) =~= none);
    assert(none + words(s) =~= words(s));
    assert(words_among(seq![s]) =~= words(s));
    assert(words_of_values(seq![t]) =~= words(s));
}

/// Each suggestion is a candidate, in order, with the first of its words; there are as
/// many as there are candidates, up to the limit.
pub proof fn law_suggestions(c: Seq<CandidateV>, limit: int, fields: Seq<FieldV>, i: int)
    requires
        0 <= limit,
    ensures
        ({
            let r = suggestions_of(first_candidates(c, limit), fields);
            &&& r.len() == if c.len() <= limit {
                c.len() as int
            } else {
                limit
            }
            &&& 0 <= i < r.len() ==> r[i].document.key == c[i].document.key && r[i].text
                == c[i].words[0]
        }),
{
}

/// Completions are matching words, each once and in the order of their first appearance,
/// and go on until there are as many as were asked for or no other word is left. Each
/// stands alone and behind the search text.
pub proof fn law_completions(search: Seq<char>, list: Seq<Seq<char>>, limit: int, i: int, k: int)
    requires
        0 <= limit,
    ensures
        ({
            let r = completions_of(search, distinct_words(list, 0, seq![], limit));
            &&& r.len() <= limit
            &&& 0 <= i < r.len() ==> list.contains(r[i].text) && r[i].query_plus_text == search
                + seq![' '] + r[i].text
            &&& 0 <= i < k < r.len() ==> r[i].text != r[k].text
            &&& r.len() < limit && 0 <= k < list.len() ==> exists|j: int|
                0 <= j < r.len() && (#[trigger] r[j]).text == list[k]
        }),
{
    let d = distinct_words(list, 0, seq![], limit);
    let r = completions_of(search, d);
    law_completions_are_distinct(list, 0, seq![], limit);
    lemma_distinct_among(list, 0, seq![], limit);
    reveal_strlit(" ");
    assert(" "@ =~= seq![' ']);
    if 0 <= i < r.len() {
        assert(r[i].text == d[i]);
        assert(d.contains(d[i]));
    }
    if r.len() < limit && 0 <= k < list.len() {
        assert(d.contains(list[k]));
        let j = choose|j: int| 0 <= j < d.len() && d[j] == list[k];
        assert(r[j].text == list[k]);
    }
}

proof fn lemma_distinct_among(list: Seq<Seq<char>>, i: int, done: Seq<Seq<char>>, limit: int)
    requires
        0 <= i,
        all_listed(list, done),
    ensures
        all_listed(list, distinct_words(list, i, done, limit)),
    decreases list.len() - i,
{
    if i < list.len() && done.len() < limit {
        if done.contains(list[i]) {
            lemma_distinct_among(list, i + 1, done, limit);
        } else {
            let next = done.push(list[i]);
            assert(list.contains(list[i]));
            assert forall|k: int| 0 <= k < next.len() implies list.contains(#[trigger] next[k]) by {
                if k < done.len() {
                    assert(next[k] == done[k]);
                }
            }
            lemma_distinct_among(list, i + 1, next, limit);
        }
    }
}

spec fn all_listed(list: Seq<Seq<char>>, some: Seq<Seq<char>>) -> bool {
    forall|k: int| 0 <= k < some.len() ==> list.contains(#[trigger] some[k])
}

/// A word that appears before another for the first time is completed before it.
pub proof fn law_completions_keep_order(list: Seq<Seq<char>>, w: Seq<char>, limit: int)
    requires
        0 <= limit,
    ensures
        ({
            let d = distinct_words(list, 0, seq![], limit);
            let more = distinct_words(list.push(w), 0, seq![], limit);
            more == (if d.len() < limit && !list.contains(w) {
                d.push(w)
            } else {
                d
            })
        }),
{
    lemma_one_more_word(list, w, 0, seq![], limit);
}

proof fn lemma_one_more_word(
    list: Seq<Seq<char>>,
    w: Seq<char>,
    i: int,
    done: Seq<Seq<char>>,
    limit: int,
)
    requires
        0 <= i <= list.len(),
        done.len() <= limit,
        done.len() < limit ==> forall|k: int|
            0 <= k < i ==> done.contains(#[trigger] list[k]),
        forall|k: int| 0 <= k < done.len() ==> list.contains(#[trigger] done[k]),
    ensures
        ({
            let d = distinct_words(list, i, done, limit);
            let more = distinct_words(list.push(w), i, done, limit);
            more == (if d.len() < limit && !list.contains(w) {
                d.push(w)
            } else {
                d
            })
        }),
    decreases list.len() - i,
{
    let all = list.push(w);
    if done.len() < limit {
        if i < list.len() {
            assert(all[i] == list[i]);
            let next = done.push(list[i]);
            if done.contains(list[i]) {
                assert forall|k: int| 0 <= k < i + 1 implies done.contains(#[trigger] list[k]) by {}
                lemma_one_more_word(list, w, i + 1, done, limit);
            } else {
                assert forall|k: int| 0 <= k < i + 1 implies next.contains(#[trigger] list[k]) by {
                    if k < i {
                        let j = choose|j: int| 0 <= j < done.len() && done[j] == list[k];
                        assert(next[j] == list[k]);
                    } else {
                        assert(next[done.len() as int] == list[k]);
                    }
                }
                assert(list.contains(list[i]));
                assert forall|k: int| 0 <= k < next.len() implies list.contains(
                    #[trigger] next[k],
                ) by {
                    if k < done.len() {
                        assert(next[k] == done[k]);
                    }
                }
                lemma_one_more_word(list, w, i + 1, next, limit);
            }
        } else {
            assert(all[i] == w);
            if list.contains(w) {
                let k = choose|k: int| 0 <= k < list.len() && list[k] == w;
                assert(done.contains(list[k]));
            } else if done.contains(w) {
                let k = choose|k: int| 0 <= k < done.len() && done[k] == w;
                assert(list.contains(done[k]));
            }
            assert(distinct_words(list, i, done, limit) == done);
            assert(distinct_words(all, i + 1, done, limit) == done);
            assert(distinct_words(all, i + 1, done.push(w), limit) == done.push(w));
        }
    }
}

} // verus!
