//! What holds of the service as a whole.
use crate::filter::eval::satisfies;
use crate::filter::expr::FilterExprV;
use crate::json::{JsonV, member};
use crate::query::engine::{KeyScore, KeyScoreV, indexed, with_indexed, without_indexed};
use crate::query::fulltext::{IndexedV, fits_token, without_document};
use crate::query::plan::SearchableV;
use crate::semantic::answers::lemma_next_word_bounds;
use crate::service::continuation::{ContinuationV, decoded_token};
use crate::service::documents::{BatchV, batch_sorted, disjoint};
use crate::service::paging::{OutcomeV, passes, passing_scores, scored_documents};
use crate::service::parsing::{array_items, items_of, order_clause, order_clauses, orderby_of};
use crate::service::resources::{NamedResource, NamedResourceV, ResourceKind};
use crate::service::schema::VectorSupportV;
use crate::service::search::{next_token, paging_state, request_of, token_filter, token_orderby};
use crate::service::state::{
    ServiceV, alias_collides, documents_after, index_put, index_refused, indexed_after,
    service_wf, with_resource, without_index,
};
use crate::service::types::{OrderByV, SearchQueryV};
use crate::storage::definition::{FieldV, field_at, field_named};
use crate::storage::document::{Document, DocumentV};
use crate::storage::index::IndexV;
use crate::storage::keyed::{
    Keyed, keyed_find, keyed_sorted, law_found_item_has_key, law_put_item_is_found,
    law_removed_item_is_gone,
};
use crate::storage::memory::{
    EntryV, IndexEntry, documents_put, entry_named, law_deleted_documents, law_put_documents,
};
use crate::text::{
    ascii_lowercase, is_space, items, joined, last_word_end, lemma_next_at,
    lemma_text_less_irreflexive, next_at, next_space, next_word, pieces, pieces_from, text_less,
    trim, trimmed_items, words, words_from,
};
use crate::text_laws::{lemma_next_at_is, lemma_pieces_concat};
use vstd::prelude::*;

verus! {

// ---------------------------------------------------------------------------
// Reading back what was written
// ---------------------------------------------------------------------------

proof fn lemma_put_found(docs: Seq<DocumentV>, new: Seq<DocumentV>, n: int, key: Seq<char>)
    requires
        0 <= n <= new.len(),
        keyed_sorted::<Document>(new),
    ensures
        keyed_find::<Document>(documents_put(docs, new, n), key) == (match keyed_find::<Document>(
            new.take(n),
            key,
        ) {
            Some(d) => Some(d),
            None => keyed_find::<Document>(docs, key),
        }),
    decreases n,
{
    if n > 0 {
        lemma_put_found(docs, new, n - 1, key);
        law_put_item_is_found::<Document>(documents_put(docs, new, n - 1), new[n - 1], key);
        let a = new.take(n);
        let b = new.take(n - 1);
        lemma_take_sorted(new, n);
        lemma_find_with_last(a, key);
        assert(a.drop_last() =~= b);
    } else {
        assert(new.take(0) =~= Seq::<DocumentV>::empty());
    }
}

proof fn lemma_take_sorted(s: Seq<DocumentV>, n: int)
    requires
        keyed_sorted::<Document>(s),
        0 <= n <= s.len(),
    ensures
        keyed_sorted::<Document>(s.take(n)),
{
    let t = s.take(n);
    assert forall|i: int, j: int| 0 <= i < j < t.len() implies text_less(
        #[trigger] Document::key_of_item(t[i]),
        #[trigger] Document::key_of_item(t[j]),
    ) by {
        assert(t[i] == s[i] && t[j] == s[j]);
    }
}

proof fn lemma_find_with_last(s: Seq<DocumentV>, key: Seq<char>)
    requires
        s.len() > 0,
        keyed_sorted::<Document>(s),
    ensures
        keyed_find::<Document>(s, key) == (if s.last().key == key {
            Some(s.last())
        } else {
            keyed_find::<Document>(s.drop_last(), key)
        }),
    decreases s.len(),
{
    if s.len() == 1 {
        assert(s.drop_last() =~= Seq::<DocumentV>::empty());
        assert(s.drop_first() =~= Seq::<DocumentV>::empty());
    } else {
        let rest = s.drop_first();
        assert forall|i: int, j: int| 0 <= i < j < rest.len() implies text_less(
            #[trigger] Document::key_of_item(rest[i]),
            #[trigger] Document::key_of_item(rest[j]),
        ) by {
            assert(rest[i] == s[i + 1] && rest[j] == s[j + 1]);
        }
        lemma_find_with_last(rest, key);
        assert(rest.last() == s.last());
        assert(rest.drop_last() =~= s.drop_last().drop_first());
        assert(text_less(Document::key_of_item(s[0]), Document::key_of_item(s[s.len() - 1])));
        lemma_text_less_irreflexive(s[0].key);
    }
}

/// After a batch, a key that it put in reads as its document, a key that it
/// deleted is gone, and every other key reads as before.
pub proof fn law_batch_is_read_back(docs: Seq<DocumentV>, b: BatchV, key: Seq<char>)
    requires
        keyed_sorted::<Document>(docs),
        batch_sorted(b),
        disjoint(b),
    ensures
        keyed_find::<Document>(documents_after(docs, b), key) == (match keyed_find::<Document>(
            b.upserts,
            key,
        ) {
            Some(d) => Some(d),
            None => if keyed_find::<String>(b.deletes, key) is Some {
                None
            } else {
                keyed_find::<Document>(docs, key)
            },
        }),
{
    let n = b.upserts.len() as int;
    let put = documents_put(docs, b.upserts, n);
    lemma_put_found(docs, b.upserts, n, key);
    assert(b.upserts.take(n) =~= b.upserts);
    law_put_documents(docs, b.upserts, n, key);
    law_deleted_documents(put, b.deletes, b.deletes.len() as int, key);
    law_found_item_has_key::<String>(b.deletes, key);
    let found = keyed_find::<Document>(b.upserts, key);
    if keyed_find::<String>(b.deletes, key) is Some {
        let i = choose|i: int| 0 <= i < b.deletes.len() && b.deletes[i] == key;
        assert(b.deletes[i] == key);
    } else {
        assert forall|i: int| 0 <= i < b.deletes.len() implies #[trigger] b.deletes[i] != key by {
            assert(String::key_of_item(b.deletes[i]) != key);
        }
    }
}

// ---------------------------------------------------------------------------
// Storage and engine
// ---------------------------------------------------------------------------

/// The indexed documents with a key.
pub open spec fn indexed_at(docs: Seq<IndexedV>, key: Seq<char>) -> Seq<IndexedV> {
    docs.filter(|d: IndexedV| d.key == key)
}

/// Whether the engine has indexed what storage holds: for each key that can be a
/// token, the stored document and no other.
pub open spec fn in_step(
    docs: Seq<DocumentV>,
    visible: Seq<IndexedV>,
    searchable: Seq<SearchableV>,
) -> bool {
    forall|key: Seq<char>|
        fits_token(key) ==> #[trigger] indexed_at(visible, key) == (match keyed_find::<Document>(
            docs,
            key,
        ) {
            Some(d) => seq![indexed(d, searchable)],
            None => seq![],
        })
}

proof fn lemma_at_push(docs: Seq<IndexedV>, d: IndexedV, key: Seq<char>)
    ensures
        indexed_at(docs.push(d), key) == (if d.key == key {
            indexed_at(docs, key).push(d)
        } else {
            indexed_at(docs, key)
        }),
{
    reveal(Seq::filter);
    assert(docs.push(d).drop_last() =~= docs);
}

proof fn lemma_at_without(docs: Seq<IndexedV>, gone: Seq<char>, key: Seq<char>)
    ensures
        indexed_at(without_document(docs, gone), key) == (if gone == key && fits_token(key) {
            seq![]
        } else {
            indexed_at(docs, key)
        }),
    decreases docs.len(),
{
    reveal(Seq::filter);
    if docs.len() > 0 {
        lemma_at_without(docs.drop_last(), gone, key);
        lemma_at_push(docs.drop_last(), docs.last(), key);
        assert(docs =~= docs.drop_last().push(docs.last()));
        let rest = without_document(docs.drop_last(), gone);
        lemma_at_push(rest, docs.last(), key);
    } else {
        assert(without_document(docs, gone) =~= Seq::<IndexedV>::empty());
        assert(indexed_at(docs, key) =~= Seq::<IndexedV>::empty());
    }
}

proof fn lemma_at_without_all(docs: Seq<IndexedV>, keys: Seq<Seq<char>>, key: Seq<char>)
    requires
        fits_token(key),
    ensures
        indexed_at(without_indexed(docs, keys), key) == (if keys.contains(key) {
            seq![]
        } else {
            indexed_at(docs, key)
        }),
    decreases keys.len(),
{
    if keys.len() > 0 {
        let rest = keys.drop_last();
        lemma_at_without_all(docs, rest, key);
        lemma_at_without(without_indexed(docs, rest), keys.last(), key);
        if rest.contains(key) {
            let i = choose|i: int| 0 <= i < rest.len() && rest[i] == key;
            assert(keys[i] == key);
        }
        if keys.last() == key {
            assert(keys[keys.len() - 1] == key);
        }
        if keys.contains(key) && keys.last() != key {
            let i = choose|i: int| 0 <= i < keys.len() && keys[i] == key;
            assert(rest[i] == key);
        }
    }
}

proof fn lemma_at_with(
    docs: Seq<IndexedV>,
    new: Seq<DocumentV>,
    searchable: Seq<SearchableV>,
    key: Seq<char>,
)
    requires
        fits_token(key),
        keyed_sorted::<Document>(new),
    ensures
        indexed_at(with_indexed(docs, new, searchable), key) == (match keyed_find::<Document>(
            new,
            key,
        ) {
            Some(d) => seq![indexed(d, searchable)],
            None => indexed_at(docs, key),
        }),
    decreases new.len(),
{
    if new.len() > 0 {
        let rest = new.drop_last();
        let d = new.last();
        lemma_take_sorted(new, new.len() - 1);
        assert(new.take(new.len() - 1) =~= rest);
        lemma_at_with(docs, rest, searchable, key);
        lemma_find_with_last(new, key);
        let before = with_indexed(docs, rest, searchable);
        lemma_at_without(before, d.key, key);
        lemma_at_push(without_document(before, d.key), indexed(d, searchable), key);
        if d.key == key {
            assert(Seq::<IndexedV>::empty().push(indexed(d, searchable)) =~= seq![
                indexed(d, searchable),
            ]);
        }
    }
}

/// A batch keeps storage and engine in step: whatever the actions are, every
/// backend converges on the same outcome.
pub proof fn law_batch_keeps_backends_in_step(
    docs: Seq<DocumentV>,
    visible: Seq<IndexedV>,
    b: BatchV,
    searchable: Seq<SearchableV>,
)
    requires
        keyed_sorted::<Document>(docs),
        batch_sorted(b),
        disjoint(b),
        in_step(docs, visible, searchable),
    ensures
        in_step(documents_after(docs, b), indexed_after(visible, b, searchable), searchable),
{
    assert forall|key: Seq<char>| fits_token(key) implies #[trigger] indexed_at(
        indexed_after(visible, b, searchable),
        key,
    ) == (match keyed_find::<Document>(documents_after(docs, b), key) {
        Some(d) => seq![indexed(d, searchable)],
        None => seq![],
    }) by {
        law_batch_is_read_back(docs, b, key);
        lemma_at_without_all(visible, b.deletes, key);
        lemma_at_with(without_indexed(visible, b.deletes), b.upserts, searchable, key);
        law_found_item_has_key::<String>(b.deletes, key);
        let was = indexed_at(visible, key);
        if keyed_find::<String>(b.deletes, key) is None {
            assert(!b.deletes.contains(key)) by {
                if b.deletes.contains(key) {
                    let i = choose|i: int| 0 <= i < b.deletes.len() && b.deletes[i] == key;
                    assert(String::key_of_item(b.deletes[i]) == key);
                }
            }
        }
    }
}

/// An index that was created, or rebuilt with its documents, starts in step.
pub proof fn law_rebuilt_index_is_in_step(docs: Seq<DocumentV>, searchable: Seq<SearchableV>)
    requires
        keyed_sorted::<Document>(docs),
    ensures
        in_step(
            documents_put(seq![], docs, docs.len() as int),
            with_indexed(seq![], docs, searchable),
            searchable,
        ),
{
    assert forall|key: Seq<char>| fits_token(key) implies #[trigger] indexed_at(
        with_indexed(seq![], docs, searchable),
        key,
    ) == (match keyed_find::<Document>(documents_put(seq![], docs, docs.len() as int), key) {
        Some(d) => seq![indexed(d, searchable)],
        None => seq![],
    }) by {
        lemma_put_found(seq![], docs, docs.len() as int, key);
        assert(docs.take(docs.len() as int) =~= docs);
        lemma_at_with(seq![], docs, searchable, key);
        assert(indexed_at(seq![], key) =~= Seq::<IndexedV>::empty()) by {
            reveal(Seq::filter);
        }
    }
}

// ---------------------------------------------------------------------------
// Names
// ---------------------------------------------------------------------------

/// Whether no alias has the name of an index.
pub open spec fn names_apart(s: ServiceV) -> bool {
    forall|name: Seq<char>|
        !((#[trigger] entry_named(s.storage, name)) is Some && keyed_find::<NamedResource>(
            s.aliases.items,
            name,
        ) is Some)
}

/// Creating an index keeps the names of indexes and aliases apart.
pub proof fn law_new_index_keeps_names_apart(
    s: ServiceV,
    raw: JsonV,
    support: VectorSupportV,
    docs: Seq<DocumentV>,
    after: ServiceV,
)
    requires
        names_apart(s),
        index_refused(s, raw, support) is Ok,
        index_put(s, index_refused(s, raw, support)->Ok_0, docs, after),
    ensures
        names_apart(after),
{
    let d = index_refused(s, raw, support)->Ok_0;
    let e = EntryV { definition: d, documents: documents_put(seq![], docs, docs.len() as int) };
    assert forall|name: Seq<char>|
        !((#[trigger] entry_named(after.storage, name)) is Some && keyed_find::<NamedResource>(
            after.aliases.items,
            name,
        ) is Some) by {
        law_put_item_is_found::<IndexEntry>(s.storage, e, name);
        let was = entry_named(s.storage, name);
    }
}

/// Storing an alias that is not refused keeps the names of indexes and aliases
/// apart.
pub proof fn law_new_alias_keeps_names_apart(s: ServiceV, x: NamedResourceV)
    requires
        names_apart(s),
        !alias_collides(s, ResourceKind::Alias, x.name),
    ensures
        names_apart(with_resource(s, ResourceKind::Alias, x)),
{
    let after = with_resource(s, ResourceKind::Alias, x);
    assert forall|name: Seq<char>|
        !((#[trigger] entry_named(after.storage, name)) is Some && keyed_find::<NamedResource>(
            after.aliases.items,
            name,
        ) is Some) by {
        law_put_item_is_found::<NamedResource>(s.aliases.items, x, name);
        let was = entry_named(s.storage, name);
    }
}

/// A name leads to an index of that name itself, where names are apart: an alias
/// cannot redirect it.
pub proof fn law_index_name_leads_to_index(s: ServiceV, name: Seq<char>)
    requires
        names_apart(s),
        entry_named(s.storage, name) is Some,
    ensures
        s.resolved(name) == name,
        s.entry(name) == entry_named(s.storage, name),
{
    let found = entry_named(s.storage, name);
}

/// An index that was created or updated reads as its definition, with its
/// documents.
pub proof fn law_new_index_is_read_back(
    s: ServiceV,
    raw: JsonV,
    support: VectorSupportV,
    docs: Seq<DocumentV>,
    after: ServiceV,
)
    requires
        index_refused(s, raw, support) is Ok,
        index_put(s, index_refused(s, raw, support)->Ok_0, docs, after),
    ensures
        ({
            let d = index_refused(s, raw, support)->Ok_0;
            after.entry(d.name) == Some(
                EntryV {
                    definition: d,
                    documents: documents_put(seq![], docs, docs.len() as int),
                },
            )
        }),
{
    let d = index_refused(s, raw, support)->Ok_0;
    let e = EntryV { definition: d, documents: documents_put(seq![], docs, docs.len() as int) };
    law_put_item_is_found::<IndexEntry>(s.storage, e, d.name);
}

/// A deleted index is not found, where names are apart: no alias takes its place.
pub proof fn law_deleted_index_is_not_found(s: ServiceV, name: Seq<char>)
    requires
        service_wf(s),
        names_apart(s),
        entry_named(s.storage, name) is Some,
    ensures
        without_index(s, name).entry(name) is None,
{
    law_index_name_leads_to_index(s, name);
    law_removed_item_is_gone::<IndexEntry>(s.storage, name, name);
}

// ---------------------------------------------------------------------------
// Results
// ---------------------------------------------------------------------------

proof fn lemma_passing(
    scores: Seq<KeyScoreV>,
    filter: Option<FilterExprV>,
    docs: Seq<DocumentV>,
    key: Seq<char>,
)
    ensures
        keyed_find::<KeyScore>(passing_scores(scores, filter, docs), key) is Some ==> passes(
            filter,
            docs,
            key,
        ),
    decreases scores.len(),
{
    if scores.len() > 0 {
        lemma_passing(scores.drop_last(), filter, docs, key);
        law_put_item_is_found::<KeyScore>(
            passing_scores(scores.drop_last(), filter, docs),
            scores.last(),
            key,
        );
    }
}

proof fn lemma_scored_known(scores: Seq<KeyScoreV>, docs: Seq<DocumentV>, i: int)
    requires
        0 <= i < scored_documents(scores, docs).len(),
    ensures
        exists|k: int|
            0 <= k < scores.len() && keyed_find::<Document>(docs, (#[trigger] scores[k]).key)
                == Some(scored_documents(scores, docs)[i].document) && scores[k].score
                == scored_documents(scores, docs)[i].score,
    decreases scores.len(),
{
    if scores.len() > 0 {
        let rest = scores.drop_last();
        let found = scored_documents(rest, docs);
        if i < found.len() {
            lemma_scored_known(rest, docs, i);
            let k = choose|k: int|
                0 <= k < rest.len() && keyed_find::<Document>(docs, (#[trigger] rest[k]).key)
                    == Some(found[i].document) && rest[k].score == found[i].score;
            assert(scores[k] == rest[k]);
            assert(scored_documents(scores, docs)[i] == found[i]);
        } else {
            assert(scores[scores.len() - 1] == scores.last());
        }
    }
}

/// Every result of a filtered search is a stored document that passes the
/// filter.
pub proof fn law_results_pass_filter(
    scores: Seq<KeyScoreV>,
    e: FilterExprV,
    docs: Seq<DocumentV>,
    i: int,
)
    requires
        0 <= i < scored_documents(passing_scores(scores, Some(e), docs), docs).len(),
    ensures
        satisfies(e, scored_documents(passing_scores(scores, Some(e), docs), docs)[i].document.fields),
        docs.contains(scored_documents(passing_scores(scores, Some(e), docs), docs)[i].document),
{
    let kept = passing_scores(scores, Some(e), docs);
    lemma_scored_known(kept, docs, i);
    let d = scored_documents(kept, docs)[i].document;
    let k = choose|k: int|
        0 <= k < kept.len() && keyed_find::<Document>(docs, (#[trigger] kept[k]).key) == Some(d);
    let key = kept[k].key;
    lemma_found_somewhere(kept, k);
    lemma_passing(scores, Some(e), docs, key);
    law_found_item_has_key::<Document>(docs, key);
}

proof fn lemma_found_somewhere(s: Seq<KeyScoreV>, k: int)
    requires
        0 <= k < s.len(),
    ensures
        keyed_find::<KeyScore>(s, s[k].key) is Some,
{
    law_found_item_has_key::<KeyScore>(s, s[k].key);
    if keyed_find::<KeyScore>(s, s[k].key) is None {
        assert(KeyScore::key_of_item(s[k]) != s[k].key);
    }
}

// ---------------------------------------------------------------------------
// Paging
// ---------------------------------------------------------------------------

/// Whether no item holds a comma.
pub open spec fn no_commas(parts: Seq<Seq<char>>) -> bool {
    forall|i: int| 0 <= i < parts.len() ==> !(#[trigger] parts[i]).contains(',')
}

/// Whether items are trimmed, and none is empty.
pub open spec fn all_trimmed(parts: Seq<Seq<char>>) -> bool {
    forall|i: int|
        0 <= i < parts.len() ==> trim(#[trigger] parts[i]) == parts[i] && parts[i].len() > 0
}

proof fn lemma_one_piece(s: Seq<char>)
    requires
        !s.contains(','),
    ensures
        pieces(s, ',') == seq![s],
{
    assert forall|k: int| 0 <= k < s.len() implies s[k] != ',' by {
        assert(s.contains(s[k]));
    }
    lemma_next_at_is(s, ',', 0, s.len() as int);
    assert(s.skip(0) =~= s);
}

proof fn lemma_next_word_shift(s: Seq<char>, i: int)
    requires
        0 <= i <= s.len(),
    ensures
        next_word(seq![' '] + s, i + 1) == next_word(s, i) + 1,
    decreases s.len() - i,
{
    let w = seq![' '] + s;
    if i < s.len() {
        assert(w[i + 1] == s[i]);
        if is_space(s[i]) {
            lemma_next_word_shift(s, i + 1);
        }
    }
}

proof fn lemma_word_end_shift(s: Seq<char>, n: int)
    requires
        0 <= n <= s.len(),
    ensures
        last_word_end(s, n) > 0 ==> last_word_end(seq![' '] + s, n + 1) == last_word_end(s, n) + 1,
        0 <= last_word_end(s, n) <= n,
    decreases n,
{
    if n > 0 {
        assert((seq![' '] + s)[n] == s[n - 1]);
        lemma_word_end_shift(s, n - 1);
    }
}

proof fn lemma_trim_behind_space(s: Seq<char>)
    requires
        trim(s) == s,
        s.len() > 0,
    ensures
        trim(seq![' '] + s) == s,
{
    let w = seq![' '] + s;
    let a = next_word(s, 0);
    let b = last_word_end(s, s.len() as int);
    lemma_next_word_bounds(s, 0);
    lemma_word_end_shift(s, s.len() as int);
    lemma_next_word_shift(s, 0);
    assert(w[0] == ' ');
    assert(is_space(' '));
    assert(next_word(w, 0) == next_word(w, 1));
    assert(w.len() == s.len() + 1);
    assert(w.subrange(a + 1, b + 1) =~= s.subrange(a, b));
}

proof fn lemma_joined_reads_back(parts: Seq<Seq<char>>)
    requires
        parts.len() > 0,
        no_commas(parts),
        all_trimmed(parts),
    ensures
        items(joined(parts, ", "@), ',') == parts,
    decreases parts.len(),
{
    reveal_strlit(", ");
    let last = parts.last();
    assert(parts[parts.len() - 1] == last);
    if parts.len() == 1 {
        lemma_one_piece(parts[0]);
        let p = seq![parts[0]];
        assert(p.drop_last() =~= Seq::<Seq<char>>::empty());
        assert(trimmed_items(p.drop_last()) =~= Seq::<Seq<char>>::empty());
        assert(trimmed_items(p) =~= parts);
    } else {
        let rest = parts.drop_last();
        assert forall|i: int| 0 <= i < rest.len() implies !(#[trigger] rest[i]).contains(',') by {
            assert(rest[i] == parts[i]);
        }
        assert forall|i: int| 0 <= i < rest.len() implies trim(#[trigger] rest[i]) == rest[i]
            && rest[i].len() > 0 by {
            assert(rest[i] == parts[i]);
        }
        lemma_joined_reads_back(rest);
        let head = joined(rest, ", "@);
        let tail = seq![' '] + last;
        assert(", "@ =~= seq![','] + seq![' ']);
        assert(head + ", "@ + last =~= head + seq![','] + tail);
        lemma_pieces_concat(head, tail, ',', 0);
        assert(!tail.contains(',')) by {
            if tail.contains(',') {
                let i = choose|i: int| 0 <= i < tail.len() && tail[i] == ',';
                assert(last[i - 1] == ',');
            }
        }
        lemma_one_piece(tail);
        lemma_trim_behind_space(last);
        let all = pieces(head, ',') + seq![tail];
        assert(all.drop_last() =~= pieces(head, ','));
        assert(all.last() == tail);
        assert(parts =~= rest.push(last));
    }
}

proof fn lemma_word_ends(s: Seq<char>)
    ensures
        0 <= next_word(s, 0) <= s.len(),
        next_word(s, 0) < s.len() ==> !is_space(s[next_word(s, 0)]),
        0 <= last_word_end(s, s.len() as int) <= s.len(),
        last_word_end(s, s.len() as int) > 0 ==> !is_space(
            s[last_word_end(s, s.len() as int) - 1],
        ),
{
    lemma_next_word_at(s, 0);
    lemma_word_end_at(s, s.len() as int);
}

proof fn lemma_next_word_at(s: Seq<char>, i: int)
    requires
        0 <= i <= s.len(),
    ensures
        i <= next_word(s, i) <= s.len(),
        next_word(s, i) < s.len() ==> !is_space(s[next_word(s, i)]),
    decreases s.len() - i,
{
    if i < s.len() && is_space(s[i]) {
        lemma_next_word_at(s, i + 1);
    }
}

proof fn lemma_word_end_at(s: Seq<char>, n: int)
    requires
        0 <= n <= s.len(),
    ensures
        0 <= last_word_end(s, n) <= n,
        last_word_end(s, n) > 0 ==> !is_space(s[last_word_end(s, n) - 1]),
    decreases n,
{
    if n > 0 && is_space(s[n - 1]) {
        lemma_word_end_at(s, n - 1);
    }
}

/// Trimming a trimmed text changes nothing.
pub proof fn law_trim_is_idempotent(s: Seq<char>)
    ensures
        trim(trim(s)) == trim(s),
{
    lemma_word_ends(s);
    let a = next_word(s, 0);
    let b = last_word_end(s, s.len() as int);
    let t = trim(s);
    if a < b {
        assert(t[0] == s[a]);
        assert(t[t.len() - 1] == s[b - 1]);
        assert(next_word(t, 0) == 0);
        assert(last_word_end(t, t.len() as int) == t.len());
        assert(t.subrange(0, t.len() as int) =~= t);
    } else {
        lemma_word_ends(t);
    }
}

proof fn lemma_trimmed_items_are_trimmed(parts: Seq<Seq<char>>)
    ensures
        all_trimmed(trimmed_items(parts)),
        no_commas(parts) ==> no_commas(trimmed_items(parts)),
    decreases parts.len(),
{
    if parts.len() > 0 {
        let rest = parts.drop_last();
        lemma_trimmed_items_are_trimmed(rest);
        law_trim_is_idempotent(parts.last());
        let r = trimmed_items(parts);
        let before = trimmed_items(rest);
        assert forall|i: int| 0 <= i < r.len() implies trim(#[trigger] r[i]) == r[i] && r[i].len()
            > 0 by {
            if i < before.len() {
                assert(r[i] == before[i]);
            }
        }
        if no_commas(parts) {
            assert(no_commas(rest)) by {
                assert forall|i: int| 0 <= i < rest.len() implies !(#[trigger] rest[i]).contains(
                    ',',
                ) by {
                    assert(rest[i] == parts[i]);
                }
            }
            assert(parts[parts.len() - 1] == parts.last());
            assert forall|i: int| 0 <= i < r.len() implies !(#[trigger] r[i]).contains(',') by {
                if i < before.len() {
                    assert(r[i] == before[i]);
                } else {
                    let last = parts.last();
                    lemma_word_ends(last);
                    if r[i].contains(',') {
                        let k = choose|k: int| 0 <= k < r[i].len() && r[i][k] == ',';
                        assert(last[next_word(last, 0) + k] == ',');
                    }
                }
            }
        }
    }
}

proof fn lemma_pieces_hold_no_comma(s: Seq<char>, i: int)
    requires
        0 <= i <= s.len(),
    ensures
        no_commas(pieces_from(s, ',', i)),
    decreases s.len() - i,
{
    lemma_next_at(s, ',', i);
    let j = next_at(s, ',', i);
    let r = pieces_from(s, ',', i);
    if j < s.len() {
        lemma_pieces_hold_no_comma(s, j + 1);
        let more = pieces_from(s, ',', j + 1);
        assert forall|k: int| 0 <= k < r.len() implies !(#[trigger] r[k]).contains(',') by {
            if k > 0 {
                assert(r[k] == more[k - 1]);
            }
        }
    }
}

proof fn lemma_array_items_are_trimmed(
    list: Seq<JsonV>,
    i: int,
    done: Seq<Seq<char>>,
    name: Seq<char>,
)
    requires
        all_trimmed(done),
        0 <= i,
    ensures
        array_items(list, i, done, name) matches Ok(parts) ==> all_trimmed(parts),
    decreases list.len() - i,
{
    if i < list.len() {
        if let JsonV::String(s) = list[i] {
            law_trim_is_idempotent(s);
            if trim(s).len() == 0 {
                lemma_array_items_are_trimmed(list, i + 1, done, name);
            } else {
                assert(all_trimmed(done.push(trim(s))));
                lemma_array_items_are_trimmed(list, i + 1, done.push(trim(s)), name);
            }
        }
    }
}

/// Whether the text of an `orderby` value reads back: the items of an array hold
/// no comma. A string always reads back.
pub open spec fn reads_back(value: JsonV) -> bool {
    value is Array ==> (items_of(value, "orderby"@) matches Ok(parts) ==> no_commas(parts))
}

proof fn lemma_orderby_reads_back(value: JsonV, d: IndexV)
    requires
        orderby_of(value, d) is Ok,
        reads_back(value),
    ensures
        orderby_of(JsonV::String(orderby_of(value, d)->Ok_0.1), d) == orderby_of(value, d),
{
    let parts = items_of(value, "orderby"@)->Ok_0;
    match value {
        JsonV::String(s) => {
            lemma_pieces_hold_no_comma(s, 0);
            lemma_trimmed_items_are_trimmed(pieces(s, ','));
        },
        JsonV::Array(list) => {
            lemma_array_items_are_trimmed(list, 0, seq![], "orderby"@);
        },
        _ => {},
    }
    lemma_joined_reads_back(parts);
}

/// Whether the name of a field, and those of its subfields, hold no comma.
pub open spec fn plain_name(f: FieldV) -> bool
    decreases f,
{
    !f.name.contains(',') && forall|i: int|
        0 <= i < f.subfields.len() ==> plain_name(#[trigger] f.subfields[i])
}

/// Whether no field name of a schema holds a comma.
pub open spec fn plain_names(fields: Seq<FieldV>) -> bool {
    forall|i: int| 0 <= i < fields.len() ==> plain_name(#[trigger] fields[i])
}

proof fn lemma_word_found(s: Seq<char>, i: int, p: int)
    requires
        0 <= i <= p < s.len(),
        !is_space(s[p]),
    ensures
        i <= next_word(s, i) <= p,
        !is_space(s[next_word(s, i)]),
    decreases s.len() - i,
{
    if is_space(s[i]) {
        lemma_word_found(s, i + 1, p);
    }
}

proof fn lemma_space_found(s: Seq<char>, a: int)
    requires
        0 <= a <= s.len(),
    ensures
        a <= next_space(s, a) <= s.len(),
        a < s.len() && !is_space(s[a]) ==> a < next_space(s, a),
    decreases s.len() - a,
{
    if a < s.len() && !is_space(s[a]) {
        lemma_space_found(s, a + 1);
    }
}

/// A character that is no whitespace is in a word.
proof fn lemma_in_a_word(s: Seq<char>, i: int, p: int) -> (k: int)
    requires
        0 <= i <= p < s.len(),
        !is_space(s[p]),
    ensures
        0 <= k < words_from(s, i).len(),
        words_from(s, i)[k].contains(s[p]),
    decreases s.len() - i,
{
    lemma_word_found(s, i, p);
    let a = next_word(s, i);
    lemma_space_found(s, a);
    let b = next_space(s, a);
    let word = s.subrange(a, b);
    if p < b {
        assert(word[p - a] == s[p]);
        0
    } else {
        let k = lemma_in_a_word(s, b, p);
        assert(words_from(s, i)[k + 1] == words_from(s, b)[k]);
        k + 1
    }
}

/// A character that separates no pieces is in a piece.
proof fn lemma_in_a_piece(s: Seq<char>, sep: char, i: int, p: int) -> (k: int)
    requires
        0 <= i <= p < s.len(),
        s[p] != sep,
    ensures
        0 <= k < pieces_from(s, sep, i).len(),
        pieces_from(s, sep, i)[k].contains(s[p]),
    decreases s.len() - i,
{
    lemma_next_at(s, sep, i);
    let j = next_at(s, sep, i);
    if j >= s.len() {
        assert(s.skip(i)[p - i] == s[p]);
        0
    } else if p < j {
        assert(s.subrange(i, j)[p - i] == s[p]);
        0
    } else {
        let k = lemma_in_a_piece(s, sep, j + 1, p);
        assert(pieces_from(s, sep, i)[k + 1] == pieces_from(s, sep, j + 1)[k]);
        k + 1
    }
}

proof fn lemma_named_plain(fields: Seq<FieldV>, name: Seq<char>, i: int)
    requires
        0 <= i,
        plain_names(fields),
    ensures
        field_named(fields, name, i) matches Some(f) ==> f.name == name && plain_name(f),
    decreases fields.len() - i,
{
    if i < fields.len() {
        assert(plain_name(fields[i]));
        lemma_named_plain(fields, name, i + 1);
    }
}

proof fn lemma_path_plain(fields: Seq<FieldV>, segs: Seq<Seq<char>>, i: int, k: int)
    requires
        plain_names(fields),
        0 <= i <= k < segs.len(),
        field_at(fields, segs, i) is Some,
    ensures
        !segs[k].contains(','),
    decreases segs.len() - i,
{
    lemma_named_plain(fields, segs[i], 0);
    if i < k {
        let f = field_named(fields, segs[i], 0)->Some_0;
        assert(plain_names(f.subfields));
        lemma_path_plain(f.subfields, segs, i + 1, k);
    }
}

proof fn lemma_clause_plain(part: Seq<char>, d: IndexV)
    requires
        plain_names(d.fields),
        order_clause(part, d) is Ok,
    ensures
        !part.contains(','),
{
    reveal_strlit("asc");
    reveal_strlit("desc");
    reveal_strlit("@search.score");
    if part.contains(',') {
        let p = choose|p: int| 0 <= p < part.len() && part[p] == ',';
        let k = lemma_in_a_word(part, 0, p);
        let tokens = words(part);
        let word = tokens[k];
        let at = choose|at: int| 0 <= at < word.len() && word[at] == ',';
        if k == 1 {
            let lowered = ascii_lowercase(word);
            assert(lowered[at] == ',');
            assert(lowered != "asc"@ && lowered != "desc"@) by {
                assert forall|i: int| 0 <= i < "asc"@.len() implies "asc"@[i] != ',' by {}
                assert forall|i: int| 0 <= i < "desc"@.len() implies "desc"@[i] != ',' by {}
            }
        } else {
            assert(word != "@search.score"@) by {
                assert forall|i: int| 0 <= i < "@search.score"@.len() implies "@search.score"@[i]
                    != ',' by {}
            }
            let segs = pieces(word, '/');
            let n = lemma_in_a_piece(word, '/', 0, at);
            lemma_path_plain(d.fields, segs, 0, n);
        }
    }
}

proof fn lemma_clauses_ok(
    parts: Seq<Seq<char>>,
    i: int,
    done: Seq<OrderByV>,
    d: IndexV,
    k: int,
)
    requires
        order_clauses(parts, i, done, d) is Ok,
        0 <= i <= k < parts.len(),
    ensures
        order_clause(parts[k], d) is Ok,
    decreases parts.len() - i,
{
    if i < k {
        lemma_clauses_ok(parts, i + 1, done.push(order_clause(parts[i], d)->Ok_0), d, k);
    }
}

/// Where no field name, or no item of the value, holds a comma, the canonical text
/// of an `orderby` value, as a continuation token carries it, reads as the same
/// clauses and as itself.
pub proof fn law_orderby_text_reads_back(value: JsonV, d: IndexV)
    requires
        plain_names(d.fields) || reads_back(value),
        orderby_of(value, d) is Ok,
    ensures
        orderby_of(JsonV::String(orderby_of(value, d)->Ok_0.1), d) == orderby_of(value, d),
{
    let parts = items_of(value, "orderby"@)->Ok_0;
    if plain_names(d.fields) {
        assert forall|k: int| 0 <= k < parts.len() implies !(#[trigger] parts[k]).contains(',') by {
            lemma_clauses_ok(parts, 0, seq![], d, k);
            lemma_clause_plain(parts[k], d);
        }
    }
    lemma_orderby_reads_back(value, d);
}

/// A search that goes on with only the token of a page resumes where the page
/// ended, with the filter and the order of the request that started the
/// sequence. The request's order must be one whose text reads back (see
/// [`law_orderby_text_reads_back`]).
pub proof fn law_continuation_resumes(
    query: SearchQueryV,
    outcome: OutcomeV,
    d: IndexV,
    hash: Option<u64>,
    next: SearchQueryV,
    token: Seq<char>,
)
    requires
        query.continuation is None,
        token_filter(query.paging.filter_raw) is Ok,
        token_filter(query.paging.filter_raw)->Ok_0 == query.filter,
        token_orderby(query.paging.orderby_raw, d) is Ok,
        token_orderby(query.paging.orderby_raw, d)->Ok_0 == query.orderby,
        decoded_token(token) is Ok,
        decoded_token(token)->Ok_0 == next_token(query, outcome, hash),
        next.continuation == Some(token),
    ensures
        paging_state(next, d, hash) is Ok,
        paging_state(next, d, hash)->Ok_0 == (outcome.next_skip, query.filter, query.orderby),
        forall|later: OutcomeV| #[trigger]
            next_token(next, later, hash) == (ContinuationV {
                skip: later.next_skip,
                ..next_token(query, outcome, hash)
            }),
{
}

/// A request that was parsed from a body meets what [`law_continuation_resumes`]
/// asks of it, where no field name, or no item of its order, holds a comma.
pub proof fn law_parsed_request_can_resume(
    m: Seq<(Seq<char>, JsonV)>,
    d: IndexV,
    vectorized: Seq<Seq<char>>,
)
    requires
        request_of(m, d, vectorized) is Ok,
        plain_names(d.fields) || (member(m, "orderby"@) matches Some(v) ==> reads_back(v)),
    ensures
        ({
            let q = request_of(m, d, vectorized)->Ok_0;
            &&& token_filter(q.paging.filter_raw) is Ok
            &&& token_filter(q.paging.filter_raw)->Ok_0 == q.filter
            &&& token_orderby(q.paging.orderby_raw, d) is Ok
            &&& token_orderby(q.paging.orderby_raw, d)->Ok_0 == q.orderby
        }),
{
    if let Some(v) = member(m, "orderby"@) {
        if orderby_of(v, d) is Ok {
            law_orderby_text_reads_back(v, d);
        }
    }
}

} // verus!
