//! Named resources and their stores.
use crate::error::{ApiError, ApiErrorV, ErrorCode, bad_request_v, conflict_v, not_found_v};
use crate::json::{
    Json, JsonMap, JsonV, array_of, group_json, law_insert_keeps_other_members,
    law_inserted_member_is_found, member, member_array, nonempty_str_of, values, with_member,
};
use crate::semantic::config::{member_of, value_member};
use crate::service::synonyms::SynonymMap;
use crate::storage::definition::owned_nonempty;
use crate::storage::keyed::{
    CopyItem, Keyed, KeyedList, item_views, keyed_find, keyed_put, keyed_remove,
};
use crate::text::{
    after_prefix, cat3, cat4, cat5, cat7, debug_text, digit_char, opt_text, quoted, same_text,
    strip_prefix,
};
use vstd::prelude::*;

verus! {

/// A stored named resource (an index alias, knowledge source, or knowledge
/// base). The raw request body is preserved and echoed back verbatim (with an
/// `@odata.etag`).
#[derive(Debug, PartialEq)]
pub struct NamedResource {
    pub name: String,
    /// Opaque entity tag, bumped on every create or update.
    pub etag: String,
    pub raw: Json,
}

/// The mathematical value of a [`NamedResource`].
pub struct NamedResourceV {
    pub name: Seq<char>,
    pub etag: Seq<char>,
    pub raw: JsonV,
}

impl View for NamedResource {
    type V = NamedResourceV;

    open spec fn view(&self) -> NamedResourceV {
        NamedResourceV { name: self.name@, etag: self.etag@, raw: self.raw@ }
    }
}

impl Keyed for NamedResource {
    open spec fn key_of_item(item: NamedResourceV) -> Seq<char> {
        item.name
    }

    fn key(&self) -> (r: &str) {
        self.name.as_str()
    }
}

impl CopyItem for NamedResource {
    fn copy_item(&self) -> (r: NamedResource) {
        NamedResource {
            name: self.name.clone(),
            etag: self.etag.clone(),
            raw: self.raw.duplicate(),
        }
    }
}

/// The members of a resource's response: those of its body with the tag put in.
pub open spec fn resource_members(x: NamedResourceV) -> Seq<(Seq<char>, JsonV)> {
    let m = match x.raw {
        JsonV::Object(m) => m,
        _ => seq![],
    };
    with_member(m, "@odata.etag"@, JsonV::String(x.etag))
}

/// The target index of an alias: the first entry of its `indexes` array.
pub open spec fn target_of(raw: JsonV) -> Option<Seq<char>> {
    match array_of(member_of(raw, "indexes"@)) {
        Some(items) => if items.len() > 0 {
            nonempty_str_of(Some(items[0]))
        } else {
            None
        },
        None => None,
    }
}

impl NamedResource {
    /// The JSON representation returned by the resource routes: the stored
    /// request body with an `@odata.etag` added.
    pub fn to_value(&self) -> (r: Json)
        ensures
            r@ == JsonV::Object(resource_members(self@)),
    {
        broadcast use group_json;

        let mut map = match self.raw.as_object() {
            Some(m) => m.duplicate(),
            None => {
                let m = JsonMap::new();
                assert(m@ =~= seq![]);
                m
            },
        };
        map.insert("@odata.etag".to_owned(), Json::String(self.etag.clone()));
        Json::Object(map)
    }

    /// The alias target: the first entry of the stored `indexes` array.
    /// Returns `None` when the resource has no usable target (only aliases
    /// carry an `indexes` array; other resources always return `None`).
    pub fn target_index(&self) -> (r: Option<String>)
        ensures
            opt_text(r) == target_of(self@.raw),
    {
        match member_array(value_member(&self.raw, "indexes")) {
            Some(items) => {
                if items.len() > 0 {
                    assert(values(items@)[0] == items@[0]@);
                    owned_nonempty(Some(&items[0]))
                } else {
                    None
                }
            },
            None => None,
        }
    }
}

/// Builds a [`NamedResource`] from its name, etag, and stored request body.
pub fn named_resource(name: &str, etag: String, raw: &Json) -> (r: NamedResource)
    ensures
        r@ == (NamedResourceV { name: name@, etag: etag@, raw: raw@ }),
{
    NamedResource { name: name.to_owned(), etag, raw: raw.duplicate() }
}

// ---------------------------------------------------------------------------
// Kinds
// ---------------------------------------------------------------------------

/// The four kinds of named resources managed at the service level: synonym
/// maps, index aliases, knowledge sources, and knowledge bases.
#[derive(Debug, Clone, Copy, PartialEq, Eq, Structural)]
pub enum ResourceKind {
    SynonymMap,
    Alias,
    KnowledgeSource,
    KnowledgeBase,
}

impl ResourceKind {
    pub open spec fn collection_name_spec(self) -> Seq<char> {
        match self {
            ResourceKind::SynonymMap => "synonymmaps"@,
            ResourceKind::Alias => "aliases"@,
            ResourceKind::KnowledgeSource => "knowledgesources"@,
            ResourceKind::KnowledgeBase => "knowledgebases"@,
        }
    }

    /// The kind's collection name, e.g. `aliases`.
    pub fn collection_name(self) -> (r: &'static str)
        ensures
            r@ == self.collection_name_spec(),
    {
        match self {
            ResourceKind::SynonymMap => "synonymmaps",
            ResourceKind::Alias => "aliases",
            ResourceKind::KnowledgeSource => "knowledgesources",
            ResourceKind::KnowledgeBase => "knowledgebases",
        }
    }

    pub open spec fn collection_path_spec(self) -> Seq<char> {
        match self {
            ResourceKind::SynonymMap => "/synonymmaps"@,
            ResourceKind::Alias => "/aliases"@,
            ResourceKind::KnowledgeSource => "/knowledgesources"@,
            ResourceKind::KnowledgeBase => "/knowledgebases"@,
        }
    }

    /// The kind's collection path, e.g. `/aliases`.
    pub fn collection_path(self) -> (r: &'static str)
        ensures
            r@ == self.collection_path_spec(),
    {
        match self {
            ResourceKind::SynonymMap => "/synonymmaps",
            ResourceKind::Alias => "/aliases",
            ResourceKind::KnowledgeSource => "/knowledgesources",
            ResourceKind::KnowledgeBase => "/knowledgebases",
        }
    }

    pub open spec fn path_prefix_spec(self) -> Seq<char> {
        match self {
            ResourceKind::SynonymMap => "synonymmaps("@,
            ResourceKind::Alias => "aliases("@,
            ResourceKind::KnowledgeSource => "knowledgesources("@,
            ResourceKind::KnowledgeBase => "knowledgebases("@,
        }
    }

    /// The OData-style path prefix of the kind's named segments, e.g.
    /// `aliases(`.
    pub fn path_prefix(self) -> (r: &'static str)
        ensures
            r@ == self.path_prefix_spec(),
    {
        match self {
            ResourceKind::SynonymMap => "synonymmaps(",
            ResourceKind::Alias => "aliases(",
            ResourceKind::KnowledgeSource => "knowledgesources(",
            ResourceKind::KnowledgeBase => "knowledgebases(",
        }
    }

    pub open spec fn named_path_prefix_spec(self) -> Seq<char> {
        match self {
            ResourceKind::SynonymMap => "/synonymmaps("@,
            ResourceKind::Alias => "/aliases("@,
            ResourceKind::KnowledgeSource => "/knowledgesources("@,
            ResourceKind::KnowledgeBase => "/knowledgebases("@,
        }
    }

    /// The kind's named path prefix with a leading slash, e.g. `/aliases(`.
    pub fn named_path_prefix(self) -> (r: &'static str)
        ensures
            r@ == self.named_path_prefix_spec(),
    {
        match self {
            ResourceKind::SynonymMap => "/synonymmaps(",
            ResourceKind::Alias => "/aliases(",
            ResourceKind::KnowledgeSource => "/knowledgesources(",
            ResourceKind::KnowledgeBase => "/knowledgebases(",
        }
    }

    pub open spec fn label_spec(self) -> Seq<char> {
        match self {
            ResourceKind::SynonymMap => "synonym map"@,
            ResourceKind::Alias => "alias"@,
            ResourceKind::KnowledgeSource => "knowledge source"@,
            ResourceKind::KnowledgeBase => "knowledge base"@,
        }
    }

    /// The lowercase label used in request-validation messages.
    pub fn label(self) -> (r: &'static str)
        ensures
            r@ == self.label_spec(),
    {
        match self {
            ResourceKind::SynonymMap => "synonym map",
            ResourceKind::Alias => "alias",
            ResourceKind::KnowledgeSource => "knowledge source",
            ResourceKind::KnowledgeBase => "knowledge base",
        }
    }

    pub open spec fn not_found_label_spec(self) -> Seq<char> {
        match self {
            ResourceKind::SynonymMap => "Synonym map"@,
            ResourceKind::Alias => "Alias"@,
            ResourceKind::KnowledgeSource => "Knowledge source"@,
            ResourceKind::KnowledgeBase => "Knowledge base"@,
        }
    }

    /// The capitalized label used in not-found messages.
    pub fn not_found_label(self) -> (r: &'static str)
        ensures
            r@ == self.not_found_label_spec(),
    {
        match self {
            ResourceKind::SynonymMap => "Synonym map",
            ResourceKind::Alias => "Alias",
            ResourceKind::KnowledgeSource => "Knowledge source",
            ResourceKind::KnowledgeBase => "Knowledge base",
        }
    }

    pub open spec fn conflict_kind_spec(self) -> Seq<char> {
        match self {
            ResourceKind::SynonymMap => "synonym map"@,
            ResourceKind::Alias => "resource"@,
            ResourceKind::KnowledgeSource => "resource"@,
            ResourceKind::KnowledgeBase => "resource"@,
        }
    }

    /// The label used in create-conflict messages. Only synonym maps name
    /// themselves; the other kinds share the generic `resource` label.
    pub fn conflict_kind(self) -> (r: &'static str)
        ensures
            r@ == self.conflict_kind_spec(),
    {
        match self {
            ResourceKind::SynonymMap => "synonym map",
            ResourceKind::Alias => "resource",
            ResourceKind::KnowledgeSource => "resource",
            ResourceKind::KnowledgeBase => "resource",
        }
    }

    pub open spec fn conflict_code_spec(self) -> Seq<char> {
        match self {
            ResourceKind::SynonymMap => "SynonymMapAlreadyExists"@,
            ResourceKind::Alias => "AliasAlreadyExists"@,
            ResourceKind::KnowledgeSource => "KnowledgeSourceAlreadyExists"@,
            ResourceKind::KnowledgeBase => "KnowledgeBaseAlreadyExists"@,
        }
    }

    /// The error code for a create conflict, e.g. `AliasAlreadyExists`.
    pub fn conflict_code(self) -> (r: &'static str)
        ensures
            r@ == self.conflict_code_spec(),
    {
        match self {
            ResourceKind::SynonymMap => "SynonymMapAlreadyExists",
            ResourceKind::Alias => "AliasAlreadyExists",
            ResourceKind::KnowledgeSource => "KnowledgeSourceAlreadyExists",
            ResourceKind::KnowledgeBase => "KnowledgeBaseAlreadyExists",
        }
    }

    pub open spec fn invalid_code_spec(self) -> Seq<char> {
        match self {
            ResourceKind::SynonymMap => "InvalidSynonymMap"@,
            ResourceKind::Alias => "InvalidAlias"@,
            ResourceKind::KnowledgeSource => "InvalidKnowledgeSource"@,
            ResourceKind::KnowledgeBase => "InvalidKnowledgeBase"@,
        }
    }

    /// The error code for invalid request segments and bodies, e.g.
    /// `InvalidAlias`.
    pub fn invalid_code(self) -> (r: &'static str)
        ensures
            r@ == self.invalid_code_spec(),
    {
        match self {
            ResourceKind::SynonymMap => "InvalidSynonymMap",
            ResourceKind::Alias => "InvalidAlias",
            ResourceKind::KnowledgeSource => "InvalidKnowledgeSource",
            ResourceKind::KnowledgeBase => "InvalidKnowledgeBase",
        }
    }

    pub open spec fn create_operation_spec(self) -> Seq<char> {
        match self {
            ResourceKind::SynonymMap => "createSynonymMap"@,
            ResourceKind::Alias => "createAlias"@,
            ResourceKind::KnowledgeSource => "createKnowledgeSource"@,
            ResourceKind::KnowledgeBase => "createKnowledgeBase"@,
        }
    }

    /// The logging operation name for `POST` on the kind's collection, e.g.
    /// `createAlias`.
    pub fn create_operation(self) -> (r: &'static str)
        ensures
            r@ == self.create_operation_spec(),
    {
        match self {
            ResourceKind::SynonymMap => "createSynonymMap",
            ResourceKind::Alias => "createAlias",
            ResourceKind::KnowledgeSource => "createKnowledgeSource",
            ResourceKind::KnowledgeBase => "createKnowledgeBase",
        }
    }

    pub open spec fn list_operation_spec(self) -> Seq<char> {
        match self {
            ResourceKind::SynonymMap => "listSynonymMaps"@,
            ResourceKind::Alias => "listAliases"@,
            ResourceKind::KnowledgeSource => "listKnowledgeSources"@,
            ResourceKind::KnowledgeBase => "listKnowledgeBases"@,
        }
    }

    /// The logging operation name for `GET` on the kind's collection, e.g.
    /// `listAliases`.
    pub fn list_operation(self) -> (r: &'static str)
        ensures
            r@ == self.list_operation_spec(),
    {
        match self {
            ResourceKind::SynonymMap => "listSynonymMaps",
            ResourceKind::Alias => "listAliases",
            ResourceKind::KnowledgeSource => "listKnowledgeSources",
            ResourceKind::KnowledgeBase => "listKnowledgeBases",
        }
    }

    pub open spec fn conflict_error_spec(self) -> ErrorCode {
        match self {
            ResourceKind::SynonymMap => ErrorCode::SynonymMapAlreadyExists,
            ResourceKind::Alias => ErrorCode::AliasAlreadyExists,
            ResourceKind::KnowledgeSource => ErrorCode::KnowledgeSourceAlreadyExists,
            ResourceKind::KnowledgeBase => ErrorCode::KnowledgeBaseAlreadyExists,
        }
    }

    /// The error code of a create conflict, as a code.
    pub fn conflict_error(self) -> (r: ErrorCode)
        ensures
            r == self.conflict_error_spec(),
            r.name() == self.conflict_code_spec(),
    {
        match self {
            ResourceKind::SynonymMap => ErrorCode::SynonymMapAlreadyExists,
            ResourceKind::Alias => ErrorCode::AliasAlreadyExists,
            ResourceKind::KnowledgeSource => ErrorCode::KnowledgeSourceAlreadyExists,
            ResourceKind::KnowledgeBase => ErrorCode::KnowledgeBaseAlreadyExists,
        }
    }

    pub open spec fn invalid_error_spec(self) -> ErrorCode {
        match self {
            ResourceKind::SynonymMap => ErrorCode::InvalidSynonymMap,
            ResourceKind::Alias => ErrorCode::InvalidAlias,
            ResourceKind::KnowledgeSource => ErrorCode::InvalidKnowledgeSource,
            ResourceKind::KnowledgeBase => ErrorCode::InvalidKnowledgeBase,
        }
    }

    /// The error code of an invalid segment or body, as a code.
    pub fn invalid_error(self) -> (r: ErrorCode)
        ensures
            r == self.invalid_error_spec(),
            r.name() == self.invalid_code_spec(),
    {
        match self {
            ResourceKind::SynonymMap => ErrorCode::InvalidSynonymMap,
            ResourceKind::Alias => ErrorCode::InvalidAlias,
            ResourceKind::KnowledgeSource => ErrorCode::InvalidKnowledgeSource,
            ResourceKind::KnowledgeBase => ErrorCode::InvalidKnowledgeBase,
        }
    }

    pub open spec fn named_operation_spec(self, method: Seq<char>) -> Seq<char> {
        match self {
            ResourceKind::SynonymMap => if method == "GET"@ {
                "getSynonymMap"@
            } else if method == "PUT"@ {
                "createOrUpdateSynonymMap"@
            } else if method == "DELETE"@ {
                "deleteSynonymMap"@
            } else {
                "unknown"@
            },
            ResourceKind::Alias => if method == "GET"@ {
                "getAlias"@
            } else if method == "PUT"@ {
                "createOrUpdateAlias"@
            } else if method == "DELETE"@ {
                "deleteAlias"@
            } else {
                "unknown"@
            },
            ResourceKind::KnowledgeSource => if method == "GET"@ {
                "getKnowledgeSource"@
            } else if method == "PUT"@ {
                "createOrUpdateKnowledgeSource"@
            } else if method == "DELETE"@ {
                "deleteKnowledgeSource"@
            } else {
                "unknown"@
            },
            ResourceKind::KnowledgeBase => if method == "GET"@ {
                "getKnowledgeBase"@
            } else if method == "PUT"@ {
                "createOrUpdateKnowledgeBase"@
            } else if method == "POST"@ {
                "retrieveKnowledgeBase"@
            } else if method == "DELETE"@ {
                "deleteKnowledgeBase"@
            } else {
                "unknown"@
            },
        }
    }

    /// The logging operation name for a method on the kind's named segments,
    /// e.g. `getAlias`; `unknown` for methods the route does not serve.
    pub fn named_operation(self, method: &str) -> (r: &'static str)
        ensures
            r@ == self.named_operation_spec(method@),
    {
        match self {
            ResourceKind::SynonymMap => if same_text(method, "GET") {
                "getSynonymMap"
            } else if same_text(method, "PUT") {
                "createOrUpdateSynonymMap"
            } else if same_text(method, "DELETE") {
                "deleteSynonymMap"
            } else {
                "unknown"
            },
            ResourceKind::Alias => if same_text(method, "GET") {
                "getAlias"
            } else if same_text(method, "PUT") {
                "createOrUpdateAlias"
            } else if same_text(method, "DELETE") {
                "deleteAlias"
            } else {
                "unknown"
            },
            ResourceKind::KnowledgeSource => if same_text(method, "GET") {
                "getKnowledgeSource"
            } else if same_text(method, "PUT") {
                "createOrUpdateKnowledgeSource"
            } else if same_text(method, "DELETE") {
                "deleteKnowledgeSource"
            } else {
                "unknown"
            },
            ResourceKind::KnowledgeBase => if same_text(method, "GET") {
                "getKnowledgeBase"
            } else if same_text(method, "PUT") {
                "createOrUpdateKnowledgeBase"
            } else if same_text(method, "POST") {
                "retrieveKnowledgeBase"
            } else if same_text(method, "DELETE") {
                "deleteKnowledgeBase"
            } else {
                "unknown"
            },
        }
    }

    /// The slot of this kind among the stores of named resources. Only alias,
    /// knowledge source and knowledge base have slots; synonym maps are stored
    /// separately.
    pub fn named_index(self) -> (r: usize)
        requires
            !(self is SynonymMap),
        ensures
            self is Alias ==> r == 0,
            self is KnowledgeSource ==> r == 1,
            self is KnowledgeBase ==> r == 2,
    {
        match self {
            ResourceKind::Alias => 0,
            ResourceKind::KnowledgeSource => 1,
            _ => 2,
        }
    }

    /// The error for a malformed named path segment of this kind. Synonym maps
    /// show the segment with the prefix stripped; the other kinds show the
    /// full segment.
    pub open spec fn segment_error(self, raw: Seq<char>) -> ApiErrorV {
        let shown = if self is SynonymMap {
            match after_prefix(raw, self.path_prefix_spec()) {
                Some(rest) => rest,
                None => raw,
            }
        } else {
            raw
        };
        bad_request_v(
            self.invalid_error_spec(),
            "Invalid "@ + self.label_spec() + " path segment "@ + debug_text(shown) + "; expected "@
                + self.collection_name_spec() + "'name')."@,
        )
    }

    pub fn invalid_segment_error(self, raw: &str) -> (r: ApiError)
        ensures
            r@ == self.segment_error(raw@),
    {
        let shown = match self {
            ResourceKind::SynonymMap => match strip_prefix(raw, self.path_prefix()) {
                Some(rest) => rest,
                None => raw.to_owned(),
            },
            _ => raw.to_owned(),
        };
        ApiError::bad_request(
            self.invalid_error(),
            cat7(
                "Invalid ",
                self.label(),
                " path segment ",
                quoted(shown.as_str()).as_str(),
                "; expected ",
                self.collection_name(),
                "'name').",
            ).as_str(),
        )
    }
}

/// All four kinds.
pub fn all_kinds() -> (r: [ResourceKind; 4])
    ensures
        r@ == seq![
            ResourceKind::SynonymMap,
            ResourceKind::Alias,
            ResourceKind::KnowledgeSource,
            ResourceKind::KnowledgeBase,
        ],
{
    let r = [
        ResourceKind::SynonymMap,
        ResourceKind::Alias,
        ResourceKind::KnowledgeSource,
        ResourceKind::KnowledgeBase,
    ];
    assert(r@ =~= seq![
        ResourceKind::SynonymMap,
        ResourceKind::Alias,
        ResourceKind::KnowledgeSource,
        ResourceKind::KnowledgeBase,
    ]);
    r
}

// ---------------------------------------------------------------------------
// Entity tags
// ---------------------------------------------------------------------------

pub open spec fn hex_char(d: int) -> char {
    if d < 10 {
        digit_char(d)
    } else if d == 10 {
        'A'
    } else if d == 11 {
        'B'
    } else if d == 12 {
        'C'
    } else if d == 13 {
        'D'
    } else if d == 14 {
        'E'
    } else {
        'F'
    }
}

/// The hexadecimal digits of a number, at least `width` of them.
pub open spec fn hex_digits(n: nat, width: nat) -> Seq<char>
    decreases n, width,
{
    if n < 16 && width <= 1 {
        seq![hex_char(n as int)]
    } else {
        hex_digits(
            n / 16,
            if width > 0 {
                (width - 1) as nat
            } else {
                0
            },
        ).push(hex_char((n % 16) as int))
    }
}

/// The entity tag of a number: a quoted hexadecimal number.
pub open spec fn etag_text(n: u64) -> Seq<char> {
    "\"0x"@ + hex_digits(n as nat, 8) + "\""@
}

fn hex_text(n: u64, width: u64) -> (r: String)
    ensures
        r@ == hex_digits(n as nat, width as nat),
    decreases n, width,
{
    let d: u64 = n % 16;
    let c = if d < 10 {
        if d == 0 {
            '0'
        } else if d == 1 {
            '1'
        } else if d == 2 {
            '2'
        } else if d == 3 {
            '3'
        } else if d == 4 {
            '4'
        } else if d == 5 {
            '5'
        } else if d == 6 {
            '6'
        } else if d == 7 {
            '7'
        } else if d == 8 {
            '8'
        } else {
            '9'
        }
    } else if d == 10 {
        'A'
    } else if d == 11 {
        'B'
    } else if d == 12 {
        'C'
    } else if d == 13 {
        'D'
    } else if d == 14 {
        'E'
    } else {
        'F'
    };
    if n < 16 && width <= 1 {
        let mut out = String::new();
        out.push(c);
        assert(out@ =~= seq![c]);
        out
    } else {
        let mut out = hex_text(
            n / 16,
            if width > 0 {
                width - 1
            } else {
                0
            },
        );
        out.push(c);
        out
    }
}

/// The number of the next tag.
pub open spec fn next_count(n: u64) -> u64 {
    if n == u64::MAX {
        0
    } else {
        (n + 1) as u64
    }
}

// ---------------------------------------------------------------------------
// Stores
// ---------------------------------------------------------------------------

/// A collection of named resources, keyed by name (sorted), with an
/// incrementing etag counter.
pub struct ResourceStore<T: CopyItem> {
    items: KeyedList<T>,
    etags: u64,
}

impl<T: CopyItem> ResourceStore<T> {
    /// The resources, in the order of their names.
    pub closed spec fn contents(&self) -> Seq<T::V> {
        self.items@
    }

    /// How many tags were given out.
    pub closed spec fn count(&self) -> u64 {
        self.etags
    }

    pub fn new() -> (r: ResourceStore<T>)
        ensures
            r.contents() == Seq::<T::V>::empty(),
            r.count() == 0,
    {
        ResourceStore { items: KeyedList::new(), etags: 0 }
    }

    /// The resources themselves.
    pub fn resources(&self) -> (r: &KeyedList<T>)
        ensures
            r@ == self.contents(),
    {
        &self.items
    }

    /// The tag of the next resource that is stored.
    pub fn next_etag(&self) -> (r: String)
        ensures
            r@ == etag_text(next_count(self.count())),
    {
        let n: u64 = if self.etags == u64::MAX {
            0
        } else {
            self.etags + 1
        };
        cat3("\"0x", hex_text(n, 8).as_str(), "\"")
    }

    /// Creates a new resource under its name, failing if one with the same name
    /// exists. The resource carries the next tag.
    pub fn create(&mut self, kind: ResourceKind, item: T) -> (r: Result<T, ApiError>)
        ensures
            ({
                let name = T::key_of_item(item@);
                match keyed_find::<T>(old(self).contents(), name) {
                    None => r is Ok && r->Ok_0@ == item@ && final(self).contents()
                        == keyed_put::<T>(old(self).contents(), item@) && final(self).count()
                        == next_count(old(self).count()),
                    Some(_) => r is Err && r->Err_0@ == conflict_v(
                        kind.conflict_error_spec(),
                        "A "@ + kind.conflict_kind_spec() + " with name "@ + debug_text(name)
                            + " already exists."@,
                    ) && final(self).contents() == old(self).contents() && final(self).count()
                        == old(self).count(),
                }
            }),
    {
        if self.items.contains(item.key()) {
            return Err(
                ApiError::conflict(
                    kind.conflict_error(),
                    cat5(
                        "A ",
                        kind.conflict_kind(),
                        " with name ",
                        quoted(item.key()).as_str(),
                        " already exists.",
                    ).as_str(),
                ),
            );
        }
        Ok(self.create_or_update(item))
    }

    /// Creates or replaces a resource. The resource carries the next tag, so
    /// replacing one issues a new tag.
    pub fn create_or_update(&mut self, item: T) -> (r: T)
        ensures
            r@ == item@,
            final(self).contents() == keyed_put::<T>(old(self).contents(), item@),
            final(self).count() == next_count(old(self).count()),
    {
        self.etags = if self.etags == u64::MAX {
            0
        } else {
            self.etags + 1
        };
        let copy = item.copy_item();
        self.items.put(copy);
        item
    }

    /// Returns a copy of the resource with the given name.
    pub fn get(&self, kind: ResourceKind, name: &str) -> (r: Result<T, ApiError>)
        ensures
            match keyed_find::<T>(self.contents(), name@) {
                Some(v) => r is Ok && r->Ok_0@ == v,
                None => r is Err && r->Err_0@ == not_found_v(
                    kind.not_found_label_spec() + " "@ + debug_text(name@) + " was not found."@,
                ),
            },
    {
        match self.items.get(name) {
            Some(x) => Ok(x.copy_item()),
            None => Err(
                ApiError::not_found(
                    cat4(
                        kind.not_found_label(),
                        " ",
                        quoted(name).as_str(),
                        " was not found.",
                    ).as_str(),
                ),
            ),
        }
    }

    /// Returns copies of all resources, sorted by name.
    pub fn list(&self) -> (r: Vec<T>)
        ensures
            item_views(r@) == self.contents(),
    {
        self.items.to_vec()
    }

    /// Returns `true` when a resource with the given name exists.
    pub fn contains(&self, name: &str) -> (r: bool)
        ensures
            r == keyed_find::<T>(self.contents(), name@) is Some,
    {
        self.items.contains(name)
    }

    /// Deletes a resource by name.
    pub fn delete(&mut self, kind: ResourceKind, name: &str) -> (r: Result<(), ApiError>)
        ensures
            final(self).contents() == keyed_remove::<T>(old(self).contents(), name@),
            final(self).count() == old(self).count(),
            match keyed_find::<T>(old(self).contents(), name@) {
                Some(_) => r is Ok,
                None => r is Err && r->Err_0@ == not_found_v(
                    kind.not_found_label_spec() + " "@ + debug_text(name@) + " was not found."@,
                ),
            },
    {
        if self.items.remove(name) {
            Ok(())
        } else {
            Err(
                ApiError::not_found(
                    cat4(
                        kind.not_found_label(),
                        " ",
                        quoted(name).as_str(),
                        " was not found.",
                    ).as_str(),
                ),
            )
        }
    }

    /// Drops all resources. Tags go on counting.
    pub fn clear(&mut self)
        ensures
            final(self).contents() == Seq::<T::V>::empty(),
            final(self).count() == old(self).count(),
    {
        self.items.clear();
    }
}

// ---------------------------------------------------------------------------
// Laws
// ---------------------------------------------------------------------------

/// The value of a hexadecimal digit.
pub open spec fn hex_value_of(c: char) -> int {
    if '0' <= c <= '9' {
        c as u32 - '0' as u32
    } else {
        c as u32 - 'A' as u32 + 10
    }
}

/// The number that hexadecimal digits write.
pub open spec fn hex_value(s: Seq<char>) -> int
    decreases s.len(),
{
    if s.len() == 0 {
        0
    } else {
        hex_value(s.drop_last()) * 16 + hex_value_of(s.last())
    }
}

proof fn lemma_hex_char(d: int)
    requires
        0 <= d < 16,
    ensures
        hex_value_of(hex_char(d)) == d,
{
}

proof fn lemma_hex_value(n: nat, width: nat)
    ensures
        hex_value(hex_digits(n, width)) == n,
    decreases n, width,
{
    let s = hex_digits(n, width);
    lemma_hex_char((n % 16) as int);
    if n < 16 && width <= 1 {
        assert(s.drop_last() =~= seq![]);
        assert(hex_value(s.drop_last()) == 0);
        assert(s.last() == hex_char(n as int));
    } else {
        let w = if width > 0 {
            (width - 1) as nat
        } else {
            0
        };
        lemma_hex_value(n / 16, w);
        assert(s.drop_last() =~= hex_digits(n / 16, w));
        assert(s.last() == hex_char((n % 16) as int));
    }
}

/// Different numbers have different tags.
pub proof fn law_etags_differ(m: u64, n: u64)
    requires
        m != n,
    ensures
        etag_text(m) != etag_text(n),
{
    lemma_hex_value(m as nat, 8);
    lemma_hex_value(n as nat, 8);
    let a = hex_digits(m as nat, 8);
    let b = hex_digits(n as nat, 8);
    let open = "\"0x"@;
    let close = "\""@;
    if etag_text(m) == etag_text(n) {
        assert(etag_text(m).len() == etag_text(n).len());
        assert(a.len() == b.len());
        assert forall|i: int| 0 <= i < a.len() implies a[i] == b[i] by {
            assert(etag_text(m)[open.len() + i] == a[i]);
            assert(etag_text(n)[open.len() + i] == b[i]);
        }
        assert(a =~= b);
    }
}

/// Replacing a resource issues a tag other than the one before.
pub proof fn law_next_etag_is_new(count: u64)
    ensures
        etag_text(next_count(count)) != etag_text(count),
{
    law_etags_differ(next_count(count), count);
}

/// What a resource was stored with is echoed but for the tag, which is found in
/// the response.
pub proof fn law_resource_echoes_body(x: NamedResourceV, key: Seq<char>)
    requires
        x.raw is Object,
    ensures
        member(resource_members(x), "@odata.etag"@) == Some(JsonV::String(x.etag)),
        key != "@odata.etag"@ ==> member(resource_members(x), key) == member(x.raw->Object_0, key),
{
    law_inserted_member_is_found(x.raw->Object_0, "@odata.etag"@, JsonV::String(x.etag));
    if key != "@odata.etag"@ {
        law_insert_keeps_other_members(
            x.raw->Object_0,
            "@odata.etag"@,
            JsonV::String(x.etag),
            key,
        );
    }
}

} // verus!
