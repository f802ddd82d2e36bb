//! Batches of document actions.
use crate::json::{
    Json, JsonV, group_json, keys_sorted, law_insert_keeps_keys_sorted,
    law_insert_keeps_other_members, law_inserted_member_is_found, member, members, opt_owned,
    with_member,
};
use crate::semantic::config::{member_of, value_member};
use crate::service::types::{
    ActionKind, ActionV, DocumentAction, IndexingResultItem, ResultItemV, action_views, fail_item,
    fail_result, ok_item, ok_result, result_views,
};
use crate::service::validation::{
    document_of, key_display, key_field_name, key_name, key_text, validate_document,
};
use crate::storage::document::{Document, DocumentV};
use crate::storage::index::{IndexDefinition, IndexV};
use crate::storage::keyed::{
    CopyItem, Keyed, KeyedList, keyed_find, keyed_put, keyed_remove, keyed_sorted,
    law_put_item_is_found, law_put_keeps_order, law_remove_keeps_order, law_removed_item_is_gone,
};
use crate::text::{cat3, cat5, debug_text, lemma_text_less_irreflexive, opt_text, quoted, text_less};
use vstd::prelude::*;

verus! {

impl Keyed for String {
    open spec fn key_of_item(item: Seq<char>) -> Seq<char> {
        item
    }

    fn key(&self) -> (r: &str) {
        self.as_str()
    }
}

impl CopyItem for String {
    fn copy_item(&self) -> (r: String) {
        self.clone()
    }
}

/// Working state for one document batch: the per-key final outcome (a key
/// appears in at most one of `upserts` / `deletes`, its last action in the
/// batch wins) plus the per-action results in request order.
pub struct DocumentBatch {
    pub upserts: KeyedList<Document>,
    pub deletes: KeyedList<String>,
    pub results: Vec<IndexingResultItem>,
}

/// The mathematical value of a [`DocumentBatch`].
pub struct BatchV {
    pub upserts: Seq<DocumentV>,
    pub deletes: Seq<Seq<char>>,
    pub results: Seq<ResultItemV>,
}

impl View for DocumentBatch {
    type V = BatchV;

    open spec fn view(&self) -> BatchV {
        BatchV {
            upserts: self.upserts@,
            deletes: self.deletes@,
            results: result_views(self.results@),
        }
    }
}

/// The batch before its first action.
pub open spec fn empty_batch() -> BatchV {
    BatchV { upserts: seq![], deletes: seq![], results: seq![] }
}

impl BatchV {
    /// The batch with a document put in, which supersedes a deletion of its key.
    pub open spec fn upserted(self, d: DocumentV) -> BatchV {
        BatchV {
            upserts: keyed_put::<Document>(self.upserts, d),
            deletes: keyed_remove::<String>(self.deletes, d.key),
            ..self
        }
    }

    /// The batch with a key deleted, which supersedes a document put in.
    pub open spec fn deleted(self, key: Seq<char>) -> BatchV {
        BatchV {
            upserts: keyed_remove::<Document>(self.upserts, key),
            deletes: keyed_put::<String>(self.deletes, key),
            ..self
        }
    }

    /// The batch with the result of an action.
    pub open spec fn answered(self, item: ResultItemV) -> BatchV {
        BatchV { results: self.results.push(item), ..self }
    }
}

impl DocumentBatch {
    pub fn new() -> (r: DocumentBatch)
        ensures
            r@ == empty_batch(),
    {
        let r = DocumentBatch {
            upserts: KeyedList::new(),
            deletes: KeyedList::new(),
            results: Vec::new(),
        };
        assert(r@.results =~= seq![]);
        r
    }

    /// Records an upsert in the batch's final per-key state: the document
    /// lands in `upserts` and any earlier delete for the same key is
    /// superseded.
    pub fn record_upsert(&mut self, doc: Document)
        ensures
            final(self)@ == old(self)@.upserted(doc@),
    {
        self.deletes.remove(doc.key.as_str());
        self.upserts.put(doc);
    }

    fn record_delete(&mut self, key: &str)
        ensures
            final(self)@ == old(self)@.deleted(key@),
    {
        self.deletes.put(key.to_owned());
        self.upserts.remove(key);
    }

    fn answer(&mut self, item: IndexingResultItem)
        ensures
            final(self)@ == old(self)@.answered(item@),
    {
        let ghost before = self.results@;
        self.results.push(item);
        assert(result_views(self.results@) =~= result_views(before).push(item@));
    }
}

// ---------------------------------------------------------------------------
// Merging
// ---------------------------------------------------------------------------

/// Members with the first `n` of others put in.
pub open spec fn merged_members(
    m: Seq<(Seq<char>, JsonV)>,
    update: Seq<(Seq<char>, JsonV)>,
    n: int,
) -> Seq<(Seq<char>, JsonV)>
    decreases n,
{
    if n <= 0 {
        m
    } else {
        with_member(merged_members(m, update, n - 1), update[n - 1].0, update[n - 1].1)
    }
}

/// A document with a value merged in: fields of the value replace those of the
/// document, collections as a whole.
pub open spec fn merged_document(existing: DocumentV, update: JsonV) -> Option<JsonV> {
    match update {
        JsonV::Object(m) => Some(
            JsonV::Object(merged_members(existing.fields, m, m.len() as int)),
        ),
        _ => None,
    }
}

/// Merges `update` into `existing`: scalar fields are overwritten, collection
/// fields are replaced wholesale.
pub fn merge_fields(existing: &Document, update: &Json) -> (r: Option<Json>)
    ensures
        opt_owned(r) == merged_document(existing@, update@),
{
    broadcast use group_json;

    let obj = match update.as_object() {
        Some(obj) => obj,
        None => return None,
    };
    let ghost all = obj@;
    let mut merged = existing.fields.duplicate();
    let mut i: usize = 0;
    while i < obj.entries.len()
        invariant
            all == obj@,
            all == members(obj.entries@),
            i <= obj.entries@.len(),
            merged@ == merged_members(existing@.fields, all, i as int),
        decreases obj.entries@.len() - i,
    {
        assert(all[i as int] == (obj.entries@[i as int].0@, obj.entries@[i as int].1@));
        merged.insert(obj.entries[i].0.clone(), obj.entries[i].1.duplicate());
        i += 1;
    }
    Some(Json::Object(merged))
}

/// The outcome of a single merge operation.
pub enum MergeOutcome {
    Applied(Document),
    Missing,
    Invalid(String),
}

/// The mathematical value of a [`MergeOutcome`].
pub enum MergeV {
    Applied(DocumentV),
    Missing,
    Invalid(Seq<char>),
}

impl View for MergeOutcome {
    type V = MergeV;

    open spec fn view(&self) -> MergeV {
        match self {
            MergeOutcome::Applied(d) => MergeV::Applied(d@),
            MergeOutcome::Missing => MergeV::Missing,
            MergeOutcome::Invalid(m) => MergeV::Invalid(m@),
        }
    }
}

/// The key of a document, under the name of the key field.
pub open spec fn document_key(document: JsonV, key_name: Seq<char>) -> Option<Seq<char>> {
    match member_of(document, key_name) {
        Some(v) => key_text(v),
        None => None,
    }
}

/// The document that a key has now: one put in earlier in the batch, or a stored
/// one.
pub open spec fn current_document(
    upserts: Seq<DocumentV>,
    stored: Seq<DocumentV>,
    key: Seq<char>,
) -> Option<DocumentV> {
    match keyed_find::<Document>(upserts, key) {
        Some(d) => Some(d),
        None => keyed_find::<Document>(stored, key),
    }
}

/// The outcome of merging a document.
pub open spec fn merge_outcome(
    d: IndexV,
    document: JsonV,
    upserts: Seq<DocumentV>,
    stored: Seq<DocumentV>,
) -> MergeV {
    match document_key(document, key_name(d)) {
        None => MergeV::Invalid(
            "Document is missing the key field "@ + debug_text(key_name(d)) + "."@,
        ),
        Some(key) => match current_document(upserts, stored, key) {
            None => MergeV::Missing,
            Some(existing) => match merged_document(existing, document) {
                None => MergeV::Invalid("Merge document must be a JSON object."@),
                Some(merged) => match document_of(d, merged) {
                    Ok(doc) => MergeV::Applied(doc),
                    Err(m) => MergeV::Invalid(m),
                },
            },
        },
    }
}

fn read_document_key(document: &Json, key_name: &str) -> (r: Option<String>)
    ensures
        opt_text(r) == document_key(document@, key_name@),
{
    match value_member(document, key_name) {
        Some(v) => key_display(v),
        None => None,
    }
}

/// Merges a document into the one that its key has now. A key upserted earlier
/// in the same batch merges against the pending document, so in-batch
/// upload-then-merge sees the upload.
pub fn merge_one(
    definition: &IndexDefinition,
    document: &Json,
    pending: &KeyedList<Document>,
    stored: &KeyedList<Document>,
) -> (r: MergeOutcome)
    ensures
        r@ == merge_outcome(definition@, document@, pending@, stored@),
{
    let key_name = key_field_name(definition);
    let key = match read_document_key(document, key_name.as_str()) {
        Some(key) => key,
        None => {
            return MergeOutcome::Invalid(
                cat3(
                    "Document is missing the key field ",
                    quoted(key_name.as_str()).as_str(),
                    ".",
                ),
            );
        },
    };
    let existing = match pending.get(key.as_str()) {
        Some(d) => Some(d),
        None => stored.get(key.as_str()),
    };
    match existing {
        None => MergeOutcome::Missing,
        Some(existing) => match merge_fields(existing, document) {
            None => MergeOutcome::Invalid("Merge document must be a JSON object.".to_owned()),
            Some(merged) => match validate_document(definition, &merged) {
                Ok(doc) => MergeOutcome::Applied(doc),
                Err(m) => MergeOutcome::Invalid(m),
            },
        },
    }
}

// ---------------------------------------------------------------------------
// Actions
// ---------------------------------------------------------------------------

/// What an action says of a document that is not there.
pub open spec fn missing_message(key: Seq<char>, index: Seq<char>) -> Seq<char> {
    "Document with key "@ + debug_text(key) + " was not found in index "@ + debug_text(index)
        + "."@
}

/// The key that an action's result names: empty where the document has none.
pub open spec fn result_key(document: JsonV, d: IndexV) -> Seq<char> {
    match document_key(document, key_name(d)) {
        Some(k) => k,
        None => seq![],
    }
}

/// A batch after an upload.
pub open spec fn after_upload(b: BatchV, document: JsonV, d: IndexV) -> BatchV {
    let key = result_key(document, d);
    match document_of(d, document) {
        Ok(doc) => b.upserted(doc).answered(ok_item(key, 201)),
        Err(m) => b.answered(fail_item(key, 400, m)),
    }
}

/// A batch after an action. Merges and deletions see what the batch did before.
pub open spec fn after_action(
    b: BatchV,
    action: ActionV,
    d: IndexV,
    index: Seq<char>,
    stored: Seq<DocumentV>,
) -> BatchV {
    let key = result_key(action.document, d);
    match action.kind {
        ActionKind::Upload => after_upload(b, action.document, d),
        ActionKind::Delete => if current_document(b.upserts, stored, key) is Some {
            b.deleted(key).answered(ok_item(key, 200))
        } else {
            b.answered(fail_item(key, 404, missing_message(key, index)))
        },
        _ => match merge_outcome(d, action.document, b.upserts, stored) {
            MergeV::Applied(doc) => b.upserted(doc).answered(ok_item(key, 200)),
            MergeV::Invalid(m) => b.answered(fail_item(key, 400, m)),
            MergeV::Missing => if action.kind is Merge {
                b.answered(fail_item(key, 404, missing_message(key, index)))
            } else {
                after_upload(b, action.document, d)
            },
        },
    }
}

/// A batch after the first `n` of its actions.
pub open spec fn after_actions(
    actions: Seq<ActionV>,
    n: int,
    d: IndexV,
    index: Seq<char>,
    stored: Seq<DocumentV>,
) -> BatchV
    decreases n,
{
    if n <= 0 {
        empty_batch()
    } else {
        after_action(after_actions(actions, n - 1, d, index, stored), actions[n - 1], d, index, stored)
    }
}

pub(crate) fn missing_text(key: &str, index: &str) -> (r: String)
    ensures
        r@ == missing_message(key@, index@),
{
    cat5(
        "Document with key ",
        quoted(key).as_str(),
        " was not found in index ",
        quoted(index).as_str(),
        ".",
    )
}

fn apply_upload(batch: &mut DocumentBatch, document: &Json, definition: &IndexDefinition, key: String)
    requires
        key@ == result_key(document@, definition@),
    ensures
        final(batch)@ == after_upload(old(batch)@, document@, definition@),
{
    match validate_document(definition, document) {
        Ok(doc) => {
            batch.record_upsert(doc);
            batch.answer(ok_result(key, 201));
        },
        Err(m) => batch.answer(fail_result(key, 400, m)),
    }
}

/// Applies one document action to the batch's per-key working sets, appending
/// its per-action result. Merge and delete observe keys upserted earlier in the
/// same batch, so in-batch sequences (upload-then-delete, upload-then-merge)
/// resolve in request order with the last action winning.
pub fn apply_document_action(
    batch: &mut DocumentBatch,
    action: &DocumentAction,
    definition: &IndexDefinition,
    index: &str,
    stored: &KeyedList<Document>,
)
    ensures
        final(batch)@ == after_action(old(batch)@, action@, definition@, index@, stored@),
{
    let key_name = key_field_name(definition);
    let key = match read_document_key(&action.document, key_name.as_str()) {
        Some(k) => k,
        None => {
            let k = String::new();
            assert(k@ =~= seq![]);
            k
        },
    };
    match action.kind {
        ActionKind::Upload => apply_upload(batch, &action.document, definition, key),
        ActionKind::Delete => {
            // A key upserted earlier in the same batch counts as present, so
            // upload-then-delete resolves to "deleted".
            if batch.upserts.contains(key.as_str()) || stored.contains(key.as_str()) {
                batch.record_delete(key.as_str());
                batch.answer(ok_result(key, 200));
            } else {
                let m = missing_text(key.as_str(), index);
                batch.answer(fail_result(key, 404, m));
            }
        },
        ActionKind::Merge | ActionKind::MergeOrUpload => {
            match merge_one(definition, &action.document, &batch.upserts, stored) {
                MergeOutcome::Applied(doc) => {
                    batch.record_upsert(doc);
                    batch.answer(ok_result(key, 200));
                },
                MergeOutcome::Invalid(m) => batch.answer(fail_result(key, 400, m)),
                MergeOutcome::Missing => {
                    if matches!(action.kind, ActionKind::Merge) {
                        let m = missing_text(key.as_str(), index);
                        batch.answer(fail_result(key, 404, m));
                    } else {
                        apply_upload(batch, &action.document, definition, key);
                    }
                },
            }
        },
    }
}

/// Applies a batch of document actions to working sets.
pub fn apply_actions(
    actions: &Vec<DocumentAction>,
    definition: &IndexDefinition,
    index: &str,
    stored: &KeyedList<Document>,
) -> (r: DocumentBatch)
    ensures
        r@ == after_actions(
            action_views(actions@),
            actions@.len() as int,
            definition@,
            index@,
            stored@,
        ),
{
    let ghost all = action_views(actions@);
    let mut batch = DocumentBatch::new();
    let mut i: usize = 0;
    while i < actions.len()
        invariant
            all == action_views(actions@),
            i <= actions@.len(),
            batch@ == after_actions(all, i as int, definition@, index@, stored@),
        decreases actions@.len() - i,
    {
        assert(all[i as int] == actions@[i as int]@);
        apply_document_action(&mut batch, &actions[i], definition, index, stored);
        i += 1;
    }
    batch
}

// ---------------------------------------------------------------------------
// Laws
// ---------------------------------------------------------------------------

/// Whether no key is both put in and deleted.
pub open spec fn disjoint(b: BatchV) -> bool {
    forall|key: Seq<char>|
        !((#[trigger] keyed_find::<Document>(b.upserts, key)) is Some && keyed_find::<String>(
            b.deletes,
            key,
        ) is Some)
}

/// Whether the working sets of a batch stand in order.
pub open spec fn batch_sorted(b: BatchV) -> bool {
    keyed_sorted::<Document>(b.upserts) && keyed_sorted::<String>(b.deletes)
}

proof fn lemma_upserted(b: BatchV, d: DocumentV)
    requires
        disjoint(b),
        batch_sorted(b),
    ensures
        disjoint(b.upserted(d)),
        batch_sorted(b.upserted(d)),
{
    law_put_keeps_order::<Document>(b.upserts, d);
    law_remove_keeps_order::<String>(b.deletes, d.key);
    let r = b.upserted(d);
    assert forall|key: Seq<char>|
        !((#[trigger] keyed_find::<Document>(r.upserts, key)) is Some && keyed_find::<String>(
            r.deletes,
            key,
        ) is Some) by {
        law_put_item_is_found::<Document>(b.upserts, d, key);
        law_removed_item_is_gone::<String>(b.deletes, d.key, key);
        let was = keyed_find::<Document>(b.upserts, key);
    }
}

proof fn lemma_deleted(b: BatchV, k: Seq<char>)
    requires
        disjoint(b),
        batch_sorted(b),
    ensures
        disjoint(b.deleted(k)),
        batch_sorted(b.deleted(k)),
{
    law_put_keeps_order::<String>(b.deletes, k);
    law_remove_keeps_order::<Document>(b.upserts, k);
    let r = b.deleted(k);
    assert forall|key: Seq<char>|
        !((#[trigger] keyed_find::<Document>(r.upserts, key)) is Some && keyed_find::<String>(
            r.deletes,
            key,
        ) is Some) by {
        law_put_item_is_found::<String>(b.deletes, k, key);
        law_removed_item_is_gone::<Document>(b.upserts, k, key);
        let was = keyed_find::<Document>(b.upserts, key);
    }
}

/// The final state of each key is its last action: whatever the actions are, no
/// key is both put in and deleted, and there is one result for each action, in
/// request order.
pub proof fn law_last_action_wins(
    actions: Seq<ActionV>,
    n: int,
    d: IndexV,
    index: Seq<char>,
    stored: Seq<DocumentV>,
)
    requires
        0 <= n <= actions.len(),
    ensures
        disjoint(after_actions(actions, n, d, index, stored)),
        batch_sorted(after_actions(actions, n, d, index, stored)),
        after_actions(actions, n, d, index, stored).results.len() == n,
        n > 0 ==> after_actions(actions, n, d, index, stored).results.drop_last()
            == after_actions(actions, n - 1, d, index, stored).results,
    decreases n,
{
    if n > 0 {
        law_last_action_wins(actions, n - 1, d, index, stored);
        let b = after_actions(actions, n - 1, d, index, stored);
        let action = actions[n - 1];
        let key = result_key(action.document, d);
        lemma_deleted(b, key);
        if let Ok(doc) = document_of(d, action.document) {
            lemma_upserted(b, doc);
        }
        if let MergeV::Applied(doc) = merge_outcome(d, action.document, b.upserts, stored) {
            lemma_upserted(b, doc);
        }
        assert(after_actions(actions, n, d, index, stored).results.drop_last() =~= b.results);
    } else {
        let b = empty_batch();
        assert forall|key: Seq<char>|
            !((#[trigger] keyed_find::<Document>(b.upserts, key)) is Some && keyed_find::<String>(
                b.deletes,
                key,
            ) is Some) by {}
    }
}

/// An upload that is valid is in the batch under its key, in place of what was
/// there, and takes back a deletion.
pub proof fn law_upload_is_pending(b: BatchV, document: JsonV, d: IndexV)
    requires
        document_of(d, document) is Ok,
        batch_sorted(b),
    ensures
        ({
            let doc = document_of(d, document)->Ok_0;
            let r = after_upload(b, document, d);
            keyed_find::<Document>(r.upserts, doc.key) == Some(doc) && keyed_find::<String>(
                r.deletes,
                doc.key,
            ) is None
        }),
{
    let doc = document_of(d, document)->Ok_0;
    law_put_item_is_found::<Document>(b.upserts, doc, doc.key);
    law_removed_item_is_gone::<String>(b.deletes, doc.key, doc.key);
}

/// A merge leaves the fields that the update does not name as they were, and
/// gives those that it names the update's values.
pub proof fn law_merge_keeps_other_fields(
    existing: Seq<(Seq<char>, JsonV)>,
    update: Seq<(Seq<char>, JsonV)>,
    n: int,
    key: Seq<char>,
)
    requires
        0 <= n <= update.len(),
        keys_sorted(existing),
        keys_sorted(update),
    ensures
        keys_sorted(merged_members(existing, update, n)),
        (forall|i: int| 0 <= i < n ==> (#[trigger] update[i]).0 != key) ==> member(
            merged_members(existing, update, n),
            key,
        ) == member(existing, key),
        forall|i: int|
            0 <= i < n && (#[trigger] update[i]).0 == key ==> member(
                merged_members(existing, update, n),
                key,
            ) == Some(update[i].1),
    decreases n,
{
    if n > 0 {
        law_merge_keeps_other_fields(existing, update, n - 1, key);
        let rest = merged_members(existing, update, n - 1);
        let (k, v) = update[n - 1];
        law_insert_keeps_keys_sorted(rest, k, v);
        law_inserted_member_is_found(rest, k, v);
        if k != key {
            law_insert_keeps_other_members(rest, k, v, key);
        } else {
            assert forall|i: int| 0 <= i < n && (#[trigger] update[i]).0 == key implies i == n
                - 1 by {
                if i < n - 1 {
                    lemma_text_less_irreflexive(key);
                    assert(text_less(update[i].0, update[n - 1].0));
                }
            }
        }
    }
}

} // verus!
