//! What document actions do, from what they carry and what was there.
use crate::filter::laws::{holds, lacks_member, law_members_are_found};
use crate::json::{JsonV, law_insert_keeps_other_members, law_inserted_member_is_found, member};
use crate::service::documents::{
    BatchV, after_action, after_actions, batch_sorted, disjoint, document_key, merged_document,
    merged_members, missing_message, result_key,
};
use crate::service::laws::law_batch_is_read_back;
use crate::service::state::documents_after;
use crate::service::types::{ActionKind, ActionV, ResultItemV, fail_item, ok_item};
use crate::service::validation::{document_of, key_name};
use crate::storage::document::{Document, DocumentV};
use crate::storage::index::{IndexV, key_of};
use crate::storage::keyed::{
    keyed_find, keyed_sorted, law_put_item_is_found, law_removed_item_is_gone,
};
use vstd::prelude::*;

verus! {

/// Whether no two members have the same name.
pub open spec fn names_differ(m: Seq<(Seq<char>, JsonV)>) -> bool {
    forall|i: int, j: int|
        0 <= i < m.len() && 0 <= j < m.len() && (#[trigger] m[i]).0 == (#[trigger] m[j]).0 ==> i == j
}

/// Whether a name is that of the first key field of an index.
pub open spec fn is_key_name(d: IndexV, name: Seq<char>) -> bool {
    exists|i: int|
        0 <= i < d.fields.len() && (#[trigger] d.fields[i]).is_key && d.fields[i].name == name
            && forall|j: int| 0 <= j < i ==> !(#[trigger] d.fields[j]).is_key
}

/// What a key reads as once a batch is stored: the document that was put in, nothing
/// where it was deleted, or what it read as before.
pub open spec fn reads_as(b: BatchV, stored: Seq<DocumentV>, key: Seq<char>) -> Option<DocumentV> {
    match keyed_find::<Document>(b.upserts, key) {
        Some(d) => Some(d),
        None => if keyed_find::<String>(b.deletes, key) is Some {
            None
        } else {
            keyed_find::<Document>(stored, key)
        },
    }
}

/// Whether all keys but one read as before.
pub open spec fn others_as_before(
    b: BatchV,
    after: BatchV,
    stored: Seq<DocumentV>,
    key: Seq<char>,
) -> bool {
    forall|other: Seq<char>|
        other != key ==> #[trigger] reads_as(after, stored, other) == reads_as(b, stored, other)
}

/// Whether all keys read as before.
pub open spec fn all_as_before(b: BatchV, after: BatchV, stored: Seq<DocumentV>) -> bool {
    forall|other: Seq<char>| #[trigger]
        reads_as(after, stored, other) == reads_as(b, stored, other)
}

/// Whether a batch tells of one more action that it succeeded.
pub open spec fn tells_success(b: BatchV, after: BatchV, key: Seq<char>, status: int) -> bool {
    &&& after.results.len() == b.results.len() + 1
    &&& after.results.drop_last() == b.results
    &&& after.results.last().key == key
    &&& after.results.last().succeeded
    &&& after.results.last().status_code == status
    &&& after.results.last().error_message is None
}

/// Whether a batch tells of one more action that it failed.
pub open spec fn tells_failure(b: BatchV, after: BatchV, key: Seq<char>, status: int) -> bool {
    &&& after.results.len() == b.results.len() + 1
    &&& after.results.drop_last() == b.results
    &&& after.results.last().key == key
    &&& !after.results.last().succeeded
    &&& after.results.last().status_code == status
    &&& after.results.last().error_message is Some
}

proof fn lemma_member_of_update(
    existing: Seq<(Seq<char>, JsonV)>,
    m: Seq<(Seq<char>, JsonV)>,
    n: int,
    key: Seq<char>,
)
    requires
        0 <= n <= m.len(),
        names_differ(m),
    ensures
        (forall|i: int| 0 <= i < n ==> (#[trigger] m[i]).0 != key) ==> member(
            merged_members(existing, m, n),
            key,
        ) == member(existing, key),
        forall|i: int|
            0 <= i < n && (#[trigger] m[i]).0 == key ==> member(
                merged_members(existing, m, n),
                key,
            ) == Some(m[i].1),
    decreases n,
{
    if n > 0 {
        lemma_member_of_update(existing, m, n - 1, key);
        let rest = merged_members(existing, m, n - 1);
        let (k, v) = m[n - 1];
        law_inserted_member_is_found(rest, k, v);
        if k != key {
            law_insert_keeps_other_members(rest, k, v, key);
        }
    }
}

/// A merge gives each member that the update has the update's value, and leaves every
/// other member of the document as it was; it takes an object alone.
pub proof fn law_merge_takes_every_member(
    existing: DocumentV,
    m: Seq<(Seq<char>, JsonV)>,
    key: Seq<char>,
    other: JsonV,
)
    requires
        names_differ(m),
        !(other is Object),
    ensures
        merged_document(existing, JsonV::Object(m)) is Some,
        merged_document(existing, JsonV::Object(m))->Some_0 is Object,
        ({
            let r = merged_document(existing, JsonV::Object(m))->Some_0->Object_0;
            &&& forall|i: int|
                0 <= i < m.len() && (#[trigger] m[i]).0 == key ==> member(r, key) == Some(m[i].1)
            &&& lacks_member(m, key) ==> member(r, key) == member(existing.fields, key)
            &&& member(r, key) == (match member(m, key) {
                Some(v) => Some(v),
                None => member(existing.fields, key),
            })
        }),
        merged_document(existing, other) is None,
{
    lemma_member_of_update(existing.fields, m, m.len() as int, key);
    law_members_are_found(m, key, JsonV::Null);
    if let Some(v) = member(m, key) {
        let i = choose|i: int| 0 <= i < m.len() && #[trigger] m[i] == (key, v);
        assert(m[i].0 == key);
    }
}

proof fn lemma_key_of(d: IndexV, name: Seq<char>, i: int, at: int)
    requires
        0 <= i <= at < d.fields.len(),
        d.fields[at].is_key,
        d.fields[at].name == name,
        forall|j: int| 0 <= j < at ==> !(#[trigger] d.fields[j]).is_key,
    ensures
        key_of(d.fields, i) == Some(d.fields[at]),
    decreases at - i,
{
    if i < at {
        lemma_key_of(d, name, i + 1, at);
    }
}

proof fn lemma_key_name(d: IndexV, name: Seq<char>)
    requires
        is_key_name(d, name),
    ensures
        key_name(d) == name,
        key_of(d.fields, 0) is Some,
        key_of(d.fields, 0)->Some_0.name == name,
{
    let i = choose|i: int|
        0 <= i < d.fields.len() && (#[trigger] d.fields[i]).is_key && d.fields[i].name == name
            && forall|j: int| 0 <= j < i ==> !(#[trigger] d.fields[j]).is_key;
    lemma_key_of(d, name, 0, i);
}

/// An accepted document is kept under its key with all of its members.
pub proof fn law_document_is_kept_whole(
    d: IndexV,
    m: Seq<(Seq<char>, JsonV)>,
    name: Seq<char>,
    key: Seq<char>,
)
    requires
        is_key_name(d, name),
        holds(m, name, JsonV::String(key)),
    ensures
        document_of(d, JsonV::Object(m)) matches Ok(doc) ==> doc == (DocumentV { key, fields: m }),
        result_key(JsonV::Object(m), d) == key,
        document_key(JsonV::Object(m), name) == Some(key),
{
    lemma_key_name(d, name);
    law_members_are_found(m, name, JsonV::String(key));
}

proof fn lemma_reads_after_upsert(b: BatchV, doc: DocumentV, stored: Seq<DocumentV>)
    requires
        batch_sorted(b),
    ensures
        reads_as(b.upserted(doc), stored, doc.key) == Some(doc),
        others_as_before(b, b.upserted(doc), stored, doc.key),
{
    let after = b.upserted(doc);
    law_put_item_is_found::<Document>(b.upserts, doc, doc.key);
    assert forall|other: Seq<char>| other != doc.key implies #[trigger] reads_as(
        after,
        stored,
        other,
    ) == reads_as(b, stored, other) by {
        law_put_item_is_found::<Document>(b.upserts, doc, other);
        law_removed_item_is_gone::<String>(b.deletes, doc.key, other);
    }
}

proof fn lemma_reads_after_delete(b: BatchV, key: Seq<char>, stored: Seq<DocumentV>)
    requires
        batch_sorted(b),
    ensures
        reads_as(b.deleted(key), stored, key) is None,
        others_as_before(b, b.deleted(key), stored, key),
{
    let after = b.deleted(key);
    law_put_item_is_found::<String>(b.deletes, key, key);
    law_removed_item_is_gone::<Document>(b.upserts, key, key);
    assert forall|other: Seq<char>| other != key implies #[trigger] reads_as(
        after,
        stored,
        other,
    ) == reads_as(b, stored, other) by {
        law_put_item_is_found::<String>(b.deletes, key, other);
        law_removed_item_is_gone::<Document>(b.upserts, key, other);
    }
}

proof fn lemma_answer(b: BatchV, item: ResultItemV, stored: Seq<DocumentV>)
    ensures
        forall|key: Seq<char>| #[trigger]
            reads_as(b.answered(item), stored, key) == reads_as(b, stored, key),
        b.answered(item).results.len() == b.results.len() + 1,
        b.answered(item).results.drop_last() == b.results,
        b.answered(item).results.last() == item,
{
    assert(b.answered(item).results.drop_last() =~= b.results);
}

/// An upload that is accepted reads back as exactly its members, with status 201; one
/// that is not changes nothing, with status 400. No other key is touched.
pub proof fn law_upload(
    b: BatchV,
    d: IndexV,
    index: Seq<char>,
    stored: Seq<DocumentV>,
    m: Seq<(Seq<char>, JsonV)>,
    name: Seq<char>,
    key: Seq<char>,
)
    requires
        batch_sorted(b),
        is_key_name(d, name),
        holds(m, name, JsonV::String(key)),
    ensures
        ({
            let action = ActionV { kind: ActionKind::Upload, document: JsonV::Object(m) };
            let after = after_action(b, action, d, index, stored);
            if document_of(d, JsonV::Object(m)) is Ok {
                &&& reads_as(after, stored, key) == Some(DocumentV { key, fields: m })
                &&& others_as_before(b, after, stored, key)
                &&& tells_success(b, after, key, 201)
            } else {
                &&& all_as_before(b, after, stored)
                &&& tells_failure(b, after, key, 400)
            }
        }),
{
    let document = JsonV::Object(m);
    law_document_is_kept_whole(d, m, name, key);
    match document_of(d, document) {
        Ok(doc) => {
            lemma_reads_after_upsert(b, doc, stored);
            lemma_answer(b.upserted(doc), ok_item(key, 201), stored);
        },
        Err(e) => {
            lemma_answer(b, fail_item(key, 400, e), stored);
        },
    }
}

/// A deletion of a document that is stored, or that the batch put in before, leaves
/// nothing under its key, with status 200; without such a document it changes nothing,
/// with status 404. No other key is touched.
pub proof fn law_delete(
    b: BatchV,
    d: IndexV,
    index: Seq<char>,
    stored: Seq<DocumentV>,
    m: Seq<(Seq<char>, JsonV)>,
    name: Seq<char>,
    key: Seq<char>,
)
    requires
        batch_sorted(b),
        is_key_name(d, name),
        holds(m, name, JsonV::String(key)),
    ensures
        ({
            let action = ActionV { kind: ActionKind::Delete, document: JsonV::Object(m) };
            let after = after_action(b, action, d, index, stored);
            if keyed_find::<Document>(b.upserts, key) is Some || keyed_find::<Document>(
                stored,
                key,
            ) is Some {
                &&& reads_as(after, stored, key) is None
                &&& others_as_before(b, after, stored, key)
                &&& tells_success(b, after, key, 200)
            } else {
                &&& all_as_before(b, after, stored)
                &&& tells_failure(b, after, key, 404)
            }
        }),
{
    law_document_is_kept_whole(d, m, name, key);
    lemma_reads_after_delete(b, key, stored);
    lemma_answer(b.deleted(key), ok_item(key, 200), stored);
    lemma_answer(b, fail_item(key, 404, missing_message(key, index)), stored);
}

/// A merge into a document that is stored, or that the batch put in before, reads back
/// with each member of the update and with every other member as it was, with status
/// 200; one that leaves no accepted document changes nothing, with status 400. Without
/// such a document a merge changes nothing, with status 404, and a merge-or-upload is an
/// upload. No other key is touched.
pub proof fn law_merge(
    b: BatchV,
    d: IndexV,
    index: Seq<char>,
    stored: Seq<DocumentV>,
    m: Seq<(Seq<char>, JsonV)>,
    name: Seq<char>,
    key: Seq<char>,
    kind: ActionKind,
    field: Seq<char>,
)
    requires
        batch_sorted(b),
        is_key_name(d, name),
        names_differ(m),
        holds(m, name, JsonV::String(key)),
        kind is Merge || kind is MergeOrUpload,
    ensures
        ({
            let action = ActionV { kind, document: JsonV::Object(m) };
            let upload = ActionV { kind: ActionKind::Upload, document: JsonV::Object(m) };
            let after = after_action(b, action, d, index, stored);
            let pending = keyed_find::<Document>(b.upserts, key);
            let existing = if pending is Some {
                pending
            } else {
                keyed_find::<Document>(stored, key)
            };
            match existing {
                None => if kind is Merge {
                    &&& all_as_before(b, after, stored)
                    &&& tells_failure(b, after, key, 404)
                } else {
                    after == after_action(b, upload, d, index, stored)
                },
                Some(old_one) => {
                    ||| {
                        &&& reads_as(after, stored, key) is Some
                        &&& member(reads_as(after, stored, key)->Some_0.fields, field) == (
                        match member(m, field) {
                            Some(v) => Some(v),
                            None => member(old_one.fields, field),
                        })
                        &&& document_of(
                            d,
                            JsonV::Object(reads_as(after, stored, key)->Some_0.fields),
                        ) is Ok
                        &&& others_as_before(b, after, stored, key)
                        &&& tells_success(b, after, key, 200)
                    }
                    ||| {
                        &&& document_of(d, merged_document(old_one, JsonV::Object(m))->Some_0) is Err
                        &&& all_as_before(b, after, stored)
                        &&& tells_failure(b, after, key, 400)
                    }
                },
            }
        }),
{
    let document = JsonV::Object(m);
    law_document_is_kept_whole(d, m, name, key);
    lemma_key_name(d, name);
    let pending = keyed_find::<Document>(b.upserts, key);
    let existing = if pending is Some {
        pending
    } else {
        keyed_find::<Document>(stored, key)
    };
    match existing {
        None => {
            lemma_answer(b, fail_item(key, 404, missing_message(key, index)), stored);
        },
        Some(old_one) => {
            law_merge_takes_every_member(old_one, m, field, JsonV::Null);
            law_merge_takes_every_member(old_one, m, name, JsonV::Null);
            law_members_are_found(m, name, JsonV::String(key));
            let merged = merged_document(old_one, document)->Some_0;
            match document_of(d, merged) {
                Ok(doc) => {
                    assert(doc.key == key);
                    lemma_reads_after_upsert(b, doc, stored);
                    lemma_answer(b.upserted(doc), ok_item(key, 200), stored);
                },
                Err(e) => {
                    lemma_answer(b, fail_item(key, 400, e), stored);
                },
            }
        },
    }
}

/// The actions of a batch come one after the other, each upon what those before it did,
/// and none is passed over.
pub proof fn law_actions_come_in_turn(
    actions: Seq<ActionV>,
    action: ActionV,
    d: IndexV,
    index: Seq<char>,
    stored: Seq<DocumentV>,
)
    ensures
        ({
            let all = actions.push(action);
            let b = after_actions(actions, actions.len() as int, d, index, stored);
            after_actions(all, all.len() as int, d, index, stored) == after_action(
                b,
                action,
                d,
                index,
                stored,
            )
        }),
        after_actions(seq![], 0, d, index, stored).upserts.len() == 0,
        after_actions(seq![], 0, d, index, stored).deletes.len() == 0,
        after_actions(seq![], 0, d, index, stored).results.len() == 0,
{
    let all = actions.push(action);
    let n = actions.len() as int;
    lemma_same_actions(all, actions, n, d, index, stored);
    assert(all[n] == action);
}

proof fn lemma_same_actions(
    a: Seq<ActionV>,
    b: Seq<ActionV>,
    n: int,
    d: IndexV,
    index: Seq<char>,
    stored: Seq<DocumentV>,
)
    requires
        n <= a.len(),
        n <= b.len(),
        forall|i: int| 0 <= i < n ==> a[i] == b[i],
    ensures
        after_actions(a, n, d, index, stored) == after_actions(b, n, d, index, stored),
    decreases n,
{
    if n > 0 {
        lemma_same_actions(a, b, n - 1, d, index, stored);
    }
}

/// What is stored after a batch is what each key reads as.
pub proof fn law_stored_batch_reads_back(docs: Seq<DocumentV>, b: BatchV, key: Seq<char>)
    requires
        keyed_sorted::<Document>(docs),
        batch_sorted(b),
        disjoint(b),
    ensures
        keyed_find::<Document>(documents_after(docs, b), key) == reads_as(b, docs, key),
{
    law_batch_is_read_back(docs, b, key);
}

} // verus!
