//! Storage of indexes and their documents in memory.
use crate::storage::document::{Document, DocumentV, document_views};
use crate::storage::index::{IndexDefinition, IndexV, opt_index};
use crate::storage::keyed::{
    CopyItem, Keyed, KeyedList, item_views, keyed_find, keyed_put, keyed_remove, keyed_replace,
    keyed_sorted, law_put_item_is_found, law_put_keeps_order, law_remove_keeps_order,
    law_removed_item_is_gone, law_replace_keeps_order, law_replaced_item_is_found,
    lemma_replace_keys,
};
use crate::text::{cat3, debug_text, lemma_texts_push, quoted, text_less, texts};
use crate::text_set::strictly_sorted;
use vstd::prelude::*;

verus! {

/// Errors produced by the storage layer.
#[derive(Debug, PartialEq, Eq)]
pub enum StorageError {
    IndexAlreadyExists(String),
    IndexNotFound(String),
}

/// The mathematical value of a [`StorageError`].
pub enum StorageErrorV {
    IndexAlreadyExists(Seq<char>),
    IndexNotFound(Seq<char>),
}

impl View for StorageError {
    type V = StorageErrorV;

    open spec fn view(&self) -> StorageErrorV {
        match self {
            StorageError::IndexAlreadyExists(name) => StorageErrorV::IndexAlreadyExists(name@),
            StorageError::IndexNotFound(name) => StorageErrorV::IndexNotFound(name@),
        }
    }
}

impl StorageErrorV {
    pub open spec fn text(self) -> Seq<char> {
        match self {
            StorageErrorV::IndexAlreadyExists(name) => "index "@ + debug_text(name)
                + " already exists"@,
            StorageErrorV::IndexNotFound(name) => "index "@ + debug_text(name) + " not found"@,
        }
    }
}

impl StorageError {
    /// The error as a message.
    pub fn to_text(&self) -> (r: String)
        ensures
            r@ == self@.text(),
    {
        match self {
            StorageError::IndexAlreadyExists(name) => cat3(
                "index ",
                quoted(name.as_str()).as_str(),
                " already exists",
            ),
            StorageError::IndexNotFound(name) => cat3(
                "index ",
                quoted(name.as_str()).as_str(),
                " not found",
            ),
        }
    }
}

impl Keyed for Document {
    open spec fn key_of_item(item: DocumentV) -> Seq<char> {
        item.key
    }

    fn key(&self) -> (r: &str) {
        self.key.as_str()
    }
}

impl CopyItem for Document {
    fn copy_item(&self) -> (r: Document) {
        self.duplicate()
    }
}

/// An index with its documents, in the order of their keys.
pub struct IndexEntry {
    pub definition: IndexDefinition,
    pub documents: KeyedList<Document>,
}

/// The mathematical value of an [`IndexEntry`].
pub struct EntryV {
    pub definition: IndexV,
    pub documents: Seq<DocumentV>,
}

impl View for IndexEntry {
    type V = EntryV;

    open spec fn view(&self) -> EntryV {
        EntryV { definition: self.definition@, documents: self.documents@ }
    }
}

impl Keyed for IndexEntry {
    open spec fn key_of_item(item: EntryV) -> Seq<char> {
        item.definition.name
    }

    fn key(&self) -> (r: &str) {
        self.definition.name.as_str()
    }
}

impl CopyItem for IndexEntry {
    fn copy_item(&self) -> (r: IndexEntry) {
        IndexEntry { definition: self.definition.duplicate(), documents: self.documents.duplicate() }
    }
}

/// The index with a name.
pub open spec fn entry_named(s: Seq<EntryV>, name: Seq<char>) -> Option<EntryV> {
    keyed_find::<IndexEntry>(s, name)
}

/// The indexes with one put in, without documents.
pub open spec fn with_index(s: Seq<EntryV>, d: IndexV) -> Seq<EntryV> {
    keyed_put::<IndexEntry>(s, EntryV { definition: d, documents: seq![] })
}

/// The documents with the first `n` of others put in, in order.
pub open spec fn documents_put(docs: Seq<DocumentV>, new: Seq<DocumentV>, n: int) -> Seq<DocumentV>
    decreases n,
{
    if n <= 0 {
        docs
    } else {
        keyed_put::<Document>(documents_put(docs, new, n - 1), new[n - 1])
    }
}

/// The documents without those with the first `n` of the keys.
pub open spec fn documents_removed(docs: Seq<DocumentV>, keys: Seq<Seq<char>>, n: int) -> Seq<
    DocumentV,
>
    decreases n,
{
    if n <= 0 {
        docs
    } else {
        keyed_remove::<Document>(documents_removed(docs, keys, n - 1), keys[n - 1])
    }
}

/// The indexes with the documents of one replaced.
pub open spec fn with_documents(s: Seq<EntryV>, index: Seq<char>, docs: Seq<DocumentV>) -> Seq<
    EntryV,
> {
    match entry_named(s, index) {
        Some(e) => keyed_replace::<IndexEntry>(
            s,
            index,
            EntryV { definition: e.definition, documents: docs },
        ),
        None => s,
    }
}

/// Whether indexes and documents stand in order, at most one of each for a
/// name or a key.
pub open spec fn storage_sorted(s: Seq<EntryV>) -> bool {
    keyed_sorted::<IndexEntry>(s) && forall|i: int|
        0 <= i < s.len() ==> keyed_sorted::<Document>((#[trigger] s[i]).documents)
}

pub open spec fn index_names(s: Seq<EntryV>) -> Seq<Seq<char>> {
    s.map_values(|e: EntryV| e.definition.name)
}

/// In-memory storage of indexes and documents.
pub struct InMemoryStorage {
    indexes: KeyedList<IndexEntry>,
}

impl View for InMemoryStorage {
    type V = Seq<EntryV>;

    closed spec fn view(&self) -> Seq<EntryV> {
        self.indexes@
    }
}

impl InMemoryStorage {
    pub fn new() -> (r: InMemoryStorage)
        ensures
            r@ == Seq::<EntryV>::empty(),
            storage_sorted(r@),
    {
        InMemoryStorage { indexes: KeyedList::new() }
    }

    /// Creates an index, or refuses where one with its name exists.
    pub fn create_index(&mut self, index: &IndexDefinition) -> (r: Result<(), StorageError>)
        ensures
            match entry_named(old(self)@, index@.name) {
                Some(_) => r is Err && r->Err_0@ == StorageErrorV::IndexAlreadyExists(index@.name)
                    && final(self)@ == old(self)@,
                None => r is Ok && final(self)@ == with_index(old(self)@, index@),
            },
    {
        if self.indexes.contains(index.name.as_str()) {
            return Err(StorageError::IndexAlreadyExists(index.name.clone()));
        }
        self.upsert_index(index);
        Ok(())
    }

    /// Creates or replaces an index, discarding any existing documents.
    pub fn upsert_index(&mut self, index: &IndexDefinition)
        ensures
            final(self)@ == with_index(old(self)@, index@),
    {
        let entry = IndexEntry { definition: index.duplicate(), documents: KeyedList::new() };
        assert(entry@.documents =~= seq![]);
        self.indexes.put(entry);
    }

    /// Returns a copy of the index definition, if present.
    pub fn get_index(&self, name: &str) -> (r: Option<IndexDefinition>)
        ensures
            opt_index(r) == (match entry_named(self@, name@) {
                Some(e) => Some(e.definition),
                None => None,
            }),
    {
        match self.indexes.get(name) {
            Some(entry) => Some(entry.definition.duplicate()),
            None => None,
        }
    }

    /// Deletes an index, returning `true` if it existed.
    pub fn delete_index(&mut self, name: &str) -> (r: bool)
        ensures
            r == entry_named(old(self)@, name@) is Some,
            final(self)@ == keyed_remove::<IndexEntry>(old(self)@, name@),
    {
        self.indexes.remove(name)
    }

    /// Returns the names of all indexes, sorted.
    pub fn list_index_names(&self) -> (r: Vec<String>)
        ensures
            texts(r@) == index_names(self@),
    {
        broadcast use lemma_texts_push;

        let ghost all = index_names(self@);
        let mut out: Vec<String> = Vec::new();
        let mut i: usize = 0;
        assert(texts(out@) =~= all.take(0));
        while i < self.indexes.len()
            invariant
                all == index_names(self@),
                i <= self@.len(),
                texts(out@) == all.take(i as int),
            decreases self@.len() - i,
        {
            let ghost before = texts(out@);
            let name = self.indexes.at(i).definition.name.clone();
            out.push(name);
            assert(texts(out@) == before.push(name@));
            assert(all[i as int] == name@);
            i += 1;
            assert(texts(out@) =~= all.take(i as int));
        }
        assert(all.take(all.len() as int) =~= all);
        out
    }

    /// Stores documents, replacing those with the same key.
    pub fn put_documents(&mut self, index: &str, documents: Vec<Document>) -> (r: Result<
        (),
        StorageError,
    >)
        ensures
            match entry_named(old(self)@, index@) {
                Some(e) => r is Ok && final(self)@ == with_documents(
                    old(self)@,
                    index@,
                    documents_put(
                        e.documents,
                        document_views(documents@),
                        documents@.len() as int,
                    ),
                ),
                None => r is Err && r->Err_0@ == StorageErrorV::IndexNotFound(index@)
                    && final(self)@ == old(self)@,
            },
    {
        let ghost new = document_views(documents@);
        match self.indexes.get_mut(index) {
            None => Err(StorageError::IndexNotFound(index.to_owned())),
            Some(entry) => {
                let ghost start = entry@;
                let mut i: usize = 0;
                while i < documents.len()
                    invariant
                        new == document_views(documents@),
                        i <= documents@.len(),
                        entry@.definition == start.definition,
                        entry@.documents == documents_put(start.documents, new, i as int),
                    decreases documents@.len() - i,
                {
                    assert(new[i as int] == documents@[i as int]@);
                    entry.documents.put(documents[i].duplicate());
                    i += 1;
                }
                Ok(())
            },
        }
    }

    /// Returns a copy of the document with the given key, if present.
    pub fn get_document(&self, index: &str, key: &str) -> (r: Result<
        Option<Document>,
        StorageError,
    >)
        ensures
            match entry_named(self@, index@) {
                Some(e) => match r {
                    Ok(Some(d)) => keyed_find::<Document>(e.documents, key@) == Some(d@),
                    Ok(None) => keyed_find::<Document>(e.documents, key@) is None,
                    Err(_) => false,
                },
                None => r is Err && r->Err_0@ == StorageErrorV::IndexNotFound(index@),
            },
    {
        match self.indexes.get(index) {
            None => Err(StorageError::IndexNotFound(index.to_owned())),
            Some(entry) => match entry.documents.get(key) {
                Some(d) => Ok(Some(d.duplicate())),
                None => Ok(None),
            },
        }
    }

    /// Deletes the documents with the given keys.
    pub fn delete_documents(&mut self, index: &str, keys: &Vec<String>) -> (r: Result<
        (),
        StorageError,
    >)
        ensures
            match entry_named(old(self)@, index@) {
                Some(e) => r is Ok && final(self)@ == with_documents(
                    old(self)@,
                    index@,
                    documents_removed(e.documents, texts(keys@), keys@.len() as int),
                ),
                None => r is Err && r->Err_0@ == StorageErrorV::IndexNotFound(index@)
                    && final(self)@ == old(self)@,
            },
    {
        let ghost all = texts(keys@);
        match self.indexes.get_mut(index) {
            None => Err(StorageError::IndexNotFound(index.to_owned())),
            Some(entry) => {
                let ghost start = entry@;
                let mut i: usize = 0;
                while i < keys.len()
                    invariant
                        all == texts(keys@),
                        i <= keys@.len(),
                        entry@.definition == start.definition,
                        entry@.documents == documents_removed(start.documents, all, i as int),
                    decreases keys@.len() - i,
                {
                    assert(all[i as int] == keys@[i as int]@);
                    entry.documents.remove(keys[i].as_str());
                    i += 1;
                }
                Ok(())
            },
        }
    }

    /// Returns copies of all documents in the index, ordered by key.
    pub fn get_documents(&self, index: &str) -> (r: Result<Vec<Document>, StorageError>)
        ensures
            match entry_named(self@, index@) {
                Some(e) => r is Ok && document_views(r->Ok_0@) == e.documents,
                None => r is Err && r->Err_0@ == StorageErrorV::IndexNotFound(index@),
            },
    {
        match self.indexes.get(index) {
            None => Err(StorageError::IndexNotFound(index.to_owned())),
            Some(entry) => {
                let r = entry.documents.to_vec();
                assert(document_views(r@) =~= item_views(r@));
                Ok(r)
            },
        }
    }

    /// The documents of an index, by key.
    pub fn documents(&self, index: &str) -> (r: Option<&KeyedList<Document>>)
        ensures
            match entry_named(self@, index@) {
                Some(e) => r is Some && r->Some_0@ == e.documents,
                None => r is None,
            },
    {
        match self.indexes.get(index) {
            None => None,
            Some(entry) => Some(&entry.documents),
        }
    }

    /// Clears all indexes and documents.
    pub fn reset(&mut self)
        ensures
            final(self)@ == Seq::<EntryV>::empty(),
    {
        self.indexes.clear();
    }
}

impl Default for InMemoryStorage {
    fn default() -> (r: InMemoryStorage)
        ensures
            r@ == Seq::<EntryV>::empty(),
    {
        InMemoryStorage::new()
    }
}

// ---------------------------------------------------------------------------
// Laws
// ---------------------------------------------------------------------------

/// An index that was created or replaced is found with its definition and
/// without documents; other indexes are as before, and all stand in order.
pub proof fn law_created_index(s: Seq<EntryV>, d: IndexV, other: Seq<char>)
    requires
        storage_sorted(s),
    ensures
        entry_named(with_index(s, d), d.name) == Some(
            EntryV { definition: d, documents: seq![] },
        ),
        other != d.name ==> entry_named(with_index(s, d), other) == entry_named(s, other),
        storage_sorted(with_index(s, d)),
{
    let e = EntryV { definition: d, documents: seq![] };
    law_put_item_is_found::<IndexEntry>(s, e, other);
    law_put_keeps_order::<IndexEntry>(s, e);
    lemma_put_items_sorted(s, e);
}

pub proof fn lemma_put_items_sorted(s: Seq<EntryV>, e: EntryV)
    requires
        forall|i: int|
            0 <= i < s.len() ==> keyed_sorted::<Document>((#[trigger] s[i]).documents),
        keyed_sorted::<Document>(e.documents),
    ensures
        forall|i: int|
            0 <= i < keyed_put::<IndexEntry>(s, e).len() ==> keyed_sorted::<Document>(
                (#[trigger] keyed_put::<IndexEntry>(s, e)[i]).documents,
            ),
    decreases s.len(),
{
    if s.len() > 0 {
        let rest = s.drop_first();
        assert forall|i: int| 0 <= i < rest.len() implies keyed_sorted::<Document>(
            (#[trigger] rest[i]).documents,
        ) by {
            assert(rest[i] == s[i + 1]);
        }
        lemma_put_items_sorted(rest, e);
        let r = keyed_put::<IndexEntry>(s, e);
        let tail = keyed_put::<IndexEntry>(rest, e);
        assert forall|i: int| 0 <= i < r.len() implies keyed_sorted::<Document>(
            (#[trigger] r[i]).documents,
        ) by {
            if IndexEntry::key_of_item(s[0]) == IndexEntry::key_of_item(e) {
                if i > 0 {
                    assert(r[i] == s[i]);
                }
            } else if text_less(IndexEntry::key_of_item(s[0]), IndexEntry::key_of_item(e)) {
                if i > 0 {
                    assert(r[i] == tail[i - 1]);
                } else {
                    assert(r[i] == s[0]);
                }
            } else if i > 0 {
                assert(r[i] == s[i - 1]);
            }
        }
    }
}

/// An index that was deleted is not found; other indexes are as before, and all
/// stand in order.
pub proof fn law_deleted_index(s: Seq<EntryV>, name: Seq<char>, other: Seq<char>)
    requires
        storage_sorted(s),
    ensures
        entry_named(keyed_remove::<IndexEntry>(s, name), name) is None,
        other != name ==> entry_named(keyed_remove::<IndexEntry>(s, name), other) == entry_named(
            s,
            other,
        ),
        storage_sorted(keyed_remove::<IndexEntry>(s, name)),
{
    law_removed_item_is_gone::<IndexEntry>(s, name, other);
    law_remove_keeps_order::<IndexEntry>(s, name);
    lemma_removed_items_sorted(s, name);
}

proof fn lemma_removed_items_sorted(s: Seq<EntryV>, name: Seq<char>)
    requires
        forall|i: int|
            0 <= i < s.len() ==> keyed_sorted::<Document>((#[trigger] s[i]).documents),
    ensures
        forall|i: int|
            0 <= i < keyed_remove::<IndexEntry>(s, name).len() ==> keyed_sorted::<Document>(
                (#[trigger] keyed_remove::<IndexEntry>(s, name)[i]).documents,
            ),
    decreases s.len(),
{
    if s.len() > 0 {
        let rest = s.drop_first();
        assert forall|i: int| 0 <= i < rest.len() implies keyed_sorted::<Document>(
            (#[trigger] rest[i]).documents,
        ) by {
            assert(rest[i] == s[i + 1]);
        }
        lemma_removed_items_sorted(rest, name);
        let r = keyed_remove::<IndexEntry>(s, name);
        let tail = keyed_remove::<IndexEntry>(rest, name);
        assert forall|i: int| 0 <= i < r.len() implies keyed_sorted::<Document>(
            (#[trigger] r[i]).documents,
        ) by {
            if IndexEntry::key_of_item(s[0]) == name {
                assert(r[i] == rest[i]);
            } else if i > 0 {
                assert(r[i] == tail[i - 1]);
            } else {
                assert(r[i] == s[0]);
            }
        }
    }
}

/// Replacing the documents of an index keeps its definition; the documents are
/// found in it, and other indexes are as before.
pub proof fn law_stored_documents(
    s: Seq<EntryV>,
    index: Seq<char>,
    docs: Seq<DocumentV>,
    other: Seq<char>,
)
    requires
        storage_sorted(s),
        entry_named(s, index) is Some,
        keyed_sorted::<Document>(docs),
    ensures
        entry_named(with_documents(s, index, docs), index) == Some(
            EntryV { definition: entry_named(s, index)->Some_0.definition, documents: docs },
        ),
        other != index ==> entry_named(with_documents(s, index, docs), other) == entry_named(
            s,
            other,
        ),
        storage_sorted(with_documents(s, index, docs)),
{
    lemma_found_has_key(s, index);
    let e = EntryV { definition: entry_named(s, index)->Some_0.definition, documents: docs };
    law_replaced_item_is_found::<IndexEntry>(s, index, e, other);
    law_replace_keeps_order::<IndexEntry>(s, index, e);
    lemma_replace_keys::<IndexEntry>(s, index, e);
}

pub proof fn lemma_found_has_key(s: Seq<EntryV>, index: Seq<char>)
    ensures
        entry_named(s, index) is Some ==> entry_named(s, index)->Some_0.definition.name == index,
    decreases s.len(),
{
    if s.len() > 0 && s[0].definition.name != index {
        lemma_found_has_key(s.drop_first(), index);
    }
}

/// A document that was stored is found under its key: where several were stored
/// with one key, the last of them. Documents with other keys are as before.
pub proof fn law_put_documents(
    docs: Seq<DocumentV>,
    new: Seq<DocumentV>,
    n: int,
    key: Seq<char>,
)
    requires
        keyed_sorted::<Document>(docs),
        0 <= n <= new.len(),
    ensures
        keyed_sorted::<Document>(documents_put(docs, new, n)),
        n > 0 && new[n - 1].key == key ==> keyed_find::<Document>(
            documents_put(docs, new, n),
            key,
        ) == Some(new[n - 1]),
        (forall|i: int| 0 <= i < n ==> (#[trigger] new[i]).key != key) ==> keyed_find::<Document>(
            documents_put(docs, new, n),
            key,
        ) == keyed_find::<Document>(docs, key),
    decreases n,
{
    if n > 0 {
        law_put_documents(docs, new, n - 1, key);
        let before = documents_put(docs, new, n - 1);
        law_put_keeps_order::<Document>(before, new[n - 1]);
        law_put_item_is_found::<Document>(before, new[n - 1], key);
    }
}

/// A document that was deleted is not found. Documents with other keys are as
/// before.
pub proof fn law_deleted_documents(
    docs: Seq<DocumentV>,
    keys: Seq<Seq<char>>,
    n: int,
    key: Seq<char>,
)
    requires
        keyed_sorted::<Document>(docs),
        0 <= n <= keys.len(),
    ensures
        keyed_sorted::<Document>(documents_removed(docs, keys, n)),
        (exists|i: int| 0 <= i < n && #[trigger] keys[i] == key) ==> keyed_find::<Document>(
            documents_removed(docs, keys, n),
            key,
        ) is None,
        (forall|i: int| 0 <= i < n ==> #[trigger] keys[i] != key) ==> keyed_find::<Document>(
            documents_removed(docs, keys, n),
            key,
        ) == keyed_find::<Document>(docs, key),
    decreases n,
{
    if n > 0 {
        law_deleted_documents(docs, keys, n - 1, key);
        let before = documents_removed(docs, keys, n - 1);
        law_remove_keeps_order::<Document>(before, keys[n - 1]);
        law_removed_item_is_gone::<Document>(before, keys[n - 1], key);
        if exists|i: int| 0 <= i < n && #[trigger] keys[i] == key {
            let i = choose|i: int| 0 <= i < n && #[trigger] keys[i] == key;
            if keys[n - 1] != key {
                assert(i < n - 1);
                assert(keys[i] == key);
            }
        }
    }
}

/// The names of the stored indexes come sorted.
pub proof fn law_index_names_sorted(s: Seq<EntryV>)
    requires
        storage_sorted(s),
    ensures
        strictly_sorted(index_names(s)),
{
    let names = index_names(s);
    assert forall|i: int, j: int| 0 <= i < j < names.len() implies text_less(
        #[trigger] names[i],
        #[trigger] names[j],
    ) by {
        assert(names[i] == IndexEntry::key_of_item(s[i]));
        assert(names[j] == IndexEntry::key_of_item(s[j]));
    }
}

} // verus!
