//! Storage and engine hold the same indexes and documents, whatever is asked of
//! the service.
use crate::query::engine::{
    EngineIndex, EngineIndexV, engine_index, indexed, searchable_of, with_indexed,
};
use crate::query::fulltext::fits_token;
use crate::query::plan::columns_below;
use crate::service::documents::{after_actions, law_last_action_wins};
use crate::service::laws::{
    in_step, indexed_at, law_batch_keeps_backends_in_step, law_rebuilt_index_is_in_step,
};
use crate::service::state::{
    ServiceV, documents_after, engine_after, index_put, indexed_after, preserved, service_wf,
    without_index,
};
use crate::service::types::ActionV;
use crate::storage::document::{Document, DocumentV};
use crate::storage::index::IndexV;
use crate::storage::keyed::{
    keyed_find, keyed_put, keyed_remove, keyed_replace, keyed_sorted, law_found_item_has_key,
    law_put_item_is_found, law_remove_of_absent, law_removed_item_is_gone,
    law_replaced_item_is_found,
};
use crate::storage::memory::{
    EntryV, IndexEntry, documents_put, entry_named, lemma_found_has_key, with_documents,
};
use vstd::prelude::*;

verus! {

/// Whether an index of the engine is that of a stored definition, and has
/// published what storage holds.
pub open spec fn index_agrees(e: EntryV, x: EngineIndexV) -> bool {
    &&& x.searchable == searchable_of(columns_below(e.definition.fields, seq![]))
    &&& x.pending == x.visible
    &&& in_step(e.documents, x.visible, x.searchable)
}

/// Whether storage and engine agree on what a name stands for.
pub open spec fn name_agrees(s: ServiceV, name: Seq<char>) -> bool {
    match (entry_named(s.storage, name), engine_index(s.engine, name)) {
        (Some(e), Some(x)) => index_agrees(e, x),
        (None, None) => true,
        _ => false,
    }
}

/// Whether storage and engine agree: they have the same indexes, and for each of
/// them the engine has published the stored documents.
pub open spec fn backends_agree(s: ServiceV) -> bool {
    forall|name: Seq<char>| #[trigger] name_agrees(s, name)
}

/// A service without indexes, as it is at first and after a reset, agrees.
pub proof fn law_empty_service_agrees(s: ServiceV)
    requires
        s.storage == Seq::<EntryV>::empty(),
        s.engine == Seq::<EngineIndexV>::empty(),
    ensures
        backends_agree(s),
{
}

proof fn lemma_put_agrees(s: ServiceV, d: IndexV, docs: Seq<DocumentV>, after: ServiceV)
    requires
        forall|name: Seq<char>| name != d.name ==> #[trigger] name_agrees(s, name),
        keyed_sorted::<Document>(docs),
        index_put(s, d, docs, after),
    ensures
        backends_agree(after),
{
    let entry = EntryV { definition: d, documents: documents_put(seq![], docs, docs.len() as int) };
    let x = choose|e: EngineIndexV|
        #![trigger keyed_put::<EngineIndex>(s.engine, e)]
        after.engine == keyed_put::<EngineIndex>(s.engine, e) && e.name == d.name && e.searchable
            == searchable_of(columns_below(d.fields, seq![])) && e.visible == with_indexed(
            seq![],
            docs,
            e.searchable,
        ) && e.pending == e.visible && e.works;
    assert forall|name: Seq<char>| #[trigger] name_agrees(after, name) by {
        law_put_item_is_found::<IndexEntry>(s.storage, entry, name);
        law_put_item_is_found::<EngineIndex>(s.engine, x, name);
        if name == d.name {
            law_rebuilt_index_is_in_step(docs, x.searchable);
        } else {
            assert(name_agrees(s, name));
        }
    }
}

/// Creating an index keeps storage and engine in agreement.
pub proof fn law_created_index_keeps_agreement(s: ServiceV, d: IndexV, after: ServiceV)
    requires
        backends_agree(s),
        index_put(s, d, seq![], after),
    ensures
        backends_agree(after),
{
    lemma_put_agrees(s, d, seq![], after);
}

/// Updating an index keeps storage and engine in agreement, whether its documents
/// are preserved or discarded.
pub proof fn law_updated_index_keeps_agreement(s: ServiceV, d: IndexV, after: ServiceV)
    requires
        service_wf(s),
        backends_agree(s),
        index_put(
            (ServiceV { engine: keyed_remove::<EngineIndex>(s.engine, d.name), ..s }),
            d,
            preserved(s, d),
            after,
        ),
    ensures
        backends_agree(after),
{
    let cleared = ServiceV { engine: keyed_remove::<EngineIndex>(s.engine, d.name), ..s };
    assert forall|name: Seq<char>| name != d.name implies #[trigger] name_agrees(cleared, name) by {
        assert(name_agrees(s, name));
        law_removed_item_is_gone::<EngineIndex>(s.engine, d.name, name);
    }
    law_found_item_has_key::<IndexEntry>(s.storage, d.name);
    assert(keyed_sorted::<Document>(preserved(s, d))) by {
        if let Some(e) = entry_named(s.storage, d.name) {
            let i = choose|i: int| 0 <= i < s.storage.len() && s.storage[i] == e;
            assert(keyed_sorted::<Document>(s.storage[i].documents));
        }
    }
    lemma_put_agrees(cleared, d, preserved(s, d), after);
}

/// Removing an index, by request or after a failure, keeps storage and engine in
/// agreement.
pub proof fn law_removed_index_keeps_agreement(s: ServiceV, gone: Seq<char>)
    requires
        service_wf(s),
        backends_agree(s),
    ensures
        backends_agree(without_index(s, gone)),
        entry_named(without_index(s, gone).storage, gone) is None,
        engine_index(without_index(s, gone).engine, gone) is None,
{
    let after = without_index(s, gone);
    law_removed_item_is_gone::<IndexEntry>(s.storage, gone, gone);
    law_removed_item_is_gone::<EngineIndex>(s.engine, gone, gone);
    assert forall|name: Seq<char>| #[trigger] name_agrees(after, name) by {
        assert(name_agrees(s, name));
        law_removed_item_is_gone::<IndexEntry>(s.storage, gone, name);
        law_removed_item_is_gone::<EngineIndex>(s.engine, gone, name);
    }
}

/// An index whose creation failed leaves storage and engine as they were.
pub proof fn law_failed_creation_changes_nothing(s: ServiceV, name: Seq<char>)
    requires
        backends_agree(s),
        entry_named(s.storage, name) is None,
    ensures
        (ServiceV { engine: keyed_remove::<EngineIndex>(s.engine, name), ..s }) == s,
{
    assert(name_agrees(s, name));
    law_remove_of_absent::<EngineIndex>(s.engine, name);
}

/// A batch of document actions keeps storage and engine in agreement, whatever
/// the actions are.
pub proof fn law_batch_keeps_agreement(
    s: ServiceV,
    index: Seq<char>,
    actions: Seq<ActionV>,
    after: ServiceV,
)
    requires
        service_wf(s),
        backends_agree(s),
        s.entry(index) is Some,
        ({
            let e = s.entry(index)->Some_0;
            let b = after_actions(
                actions,
                actions.len() as int,
                e.definition,
                index,
                e.documents,
            );
            &&& engine_after(s.engine, e.definition.name, b, after.engine)
            &&& after.storage == with_documents(
                s.storage,
                e.definition.name,
                documents_after(e.documents, b),
            )
        }),
    ensures
        backends_agree(after),
{
    let e = s.entry(index)->Some_0;
    let name = e.definition.name;
    let b = after_actions(actions, actions.len() as int, e.definition, index, e.documents);
    lemma_found_has_key(s.storage, s.resolved(index));
    law_found_item_has_key::<IndexEntry>(s.storage, name);
    assert(entry_named(s.storage, name) == Some(e));
    assert(name_agrees(s, name));
    let x = engine_index(s.engine, name)->Some_0;
    law_found_item_has_key::<EngineIndex>(s.engine, name);
    law_last_action_wins(actions, actions.len() as int, e.definition, index, e.documents);
    assert(keyed_sorted::<Document>(e.documents)) by {
        let i = choose|i: int| 0 <= i < s.storage.len() && s.storage[i] == e;
        assert(keyed_sorted::<Document>(s.storage[i].documents));
    }
    law_batch_keeps_backends_in_step(e.documents, x.visible, b, x.searchable);
    let stored = EntryV { definition: e.definition, documents: documents_after(e.documents, b) };
    assert forall|other: Seq<char>| #[trigger] name_agrees(after, other) by {
        assert(name_agrees(s, other));
        law_replaced_item_is_found::<IndexEntry>(s.storage, name, stored, other);
        if b.upserts.len() > 0 || b.deletes.len() > 0 {
            let y = choose|y: EngineIndexV|
                #![trigger keyed_replace::<EngineIndex>(s.engine, name, y)]
                after.engine == keyed_replace::<EngineIndex>(s.engine, name, y) && y.name == x.name
                    && y.searchable == x.searchable && y.visible == indexed_after(
                    x.pending,
                    b,
                    x.searchable,
                ) && y.pending == y.visible && y.works;
            law_replaced_item_is_found::<EngineIndex>(s.engine, name, y, other);
        }
    }
}

/// Where storage and engine agree, a search sees a document under a key exactly
/// when storage holds one, and it sees that document, once. Keys that are too
/// long to be tokens are left out.
pub proof fn law_search_sees_what_is_stored(s: ServiceV, name: Seq<char>, key: Seq<char>)
    requires
        backends_agree(s),
        entry_named(s.storage, name) is Some,
        fits_token(key),
    ensures
        engine_index(s.engine, name) is Some,
        ({
            let e = entry_named(s.storage, name)->Some_0;
            let x = engine_index(s.engine, name)->Some_0;
            indexed_at(x.visible, key) == (match keyed_find::<Document>(e.documents, key) {
                Some(d) => seq![indexed(d, x.searchable)],
                None => seq![],
            })
        }),
{
    assert(name_agrees(s, name));
}

} // verus!
