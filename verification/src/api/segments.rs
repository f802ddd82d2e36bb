//! Path segments, and what a path stands for.
use crate::error::{ApiError, ApiErrorV, ErrorCode, bad_request_v};
use crate::service::resources::{ResourceKind, all_kinds};
use crate::text::{
    after_prefix, before_suffix, cat7, chars_of, contains_text, debug_text, has_part, opt_text,
    pieces, quoted, same_text, split_on, starts_with, strip_prefix, strip_suffix, texts,
};
use vstd::prelude::*;

verus! {

// ---------------------------------------------------------------------------
// Names in segments
// ---------------------------------------------------------------------------

/// The name between single quotes; an empty name is none.
pub open spec fn unquoted(fragment: Seq<char>) -> Option<Seq<char>> {
    match after_prefix(fragment, "'"@) {
        None => None,
        Some(rest) => match before_suffix(rest, "'"@) {
            None => None,
            Some(name) => if name.len() == 0 {
                None
            } else {
                Some(name)
            },
        },
    }
}

/// The name in a segment: between the prefix and the closing parenthesis, in
/// single quotes.
pub open spec fn segment_name(raw: Seq<char>, prefix: Seq<char>) -> Option<Seq<char>> {
    match after_prefix(raw, prefix) {
        None => None,
        Some(rest) => match before_suffix(rest, ")"@) {
            None => None,
            Some(inner) => unquoted(inner),
        },
    }
}

/// The quoted name inside an `OData` segment fragment: strips the surrounding
/// single quotes and rejects an empty name.
pub fn unquote_name(fragment: &str) -> (r: Option<String>)
    ensures
        opt_text(r) == unquoted(fragment@),
{
    let rest = match strip_prefix(fragment, "'") {
        Some(s) => s,
        None => return None,
    };
    match strip_suffix(rest.as_str(), "'") {
        Some(name) => if name.as_str().is_empty() {
            None
        } else {
            Some(name)
        },
        None => None,
    }
}

/// Splits an OData-style path segment `{prefix}'name')` into its name: strips
/// the prefix and closing paren, then the surrounding quotes.
pub fn split_odata_segment(raw: &str, prefix: &str) -> (r: Option<String>)
    ensures
        opt_text(r) == segment_name(raw@, prefix@),
{
    let rest = match strip_prefix(raw, prefix) {
        Some(s) => s,
        None => return None,
    };
    match strip_suffix(rest.as_str(), ")") {
        Some(inner) => unquote_name(inner.as_str()),
        None => None,
    }
}

/// The name in a segment, or the error for a malformed one.
pub open spec fn named_segment(
    raw: Seq<char>,
    prefix: Seq<char>,
    label: Seq<char>,
    code: ErrorCode,
) -> Result<Seq<char>, ApiErrorV> {
    match segment_name(raw, prefix) {
        Some(name) => Ok(name),
        None => Err(
            bad_request_v(
                code,
                "Invalid "@ + label + " path segment "@ + debug_text(raw) + "; expected "@ + prefix
                    + "'name')."@,
            ),
        ),
    }
}

pub open spec fn text_result(r: Result<String, ApiError>) -> Result<Seq<char>, ApiErrorV> {
    match r {
        Ok(s) => Ok(s@),
        Err(e) => Err(e@),
    }
}

/// Parses an OData-style path segment (`indexes('name')`, `docs('key')`,
/// `aliases('name')`, ...) into its name. `prefix` is the segment's resource
/// prefix (e.g. `aliases(`); `kind_label` and `code` shape the error for a
/// malformed segment.
pub fn parse_odata_segment(raw: &str, prefix: &str, kind_label: &str, code: ErrorCode) -> (r:
    Result<String, ApiError>)
    ensures
        text_result(r) == named_segment(raw@, prefix@, kind_label@, code),
{
    match split_odata_segment(raw, prefix) {
        Some(name) => Ok(name),
        None => Err(
            ApiError::bad_request(
                code,
                cat7(
                    "Invalid ",
                    kind_label,
                    " path segment ",
                    quoted(raw).as_str(),
                    "; expected ",
                    prefix,
                    "'name').",
                ).as_str(),
            ),
        ),
    }
}

/// Parses the OData-style index path segment `indexes('name')`.
pub fn parse_index_name(raw: &str) -> (r: Result<String, ApiError>)
    ensures
        text_result(r) == named_segment(raw@, "indexes("@, "index"@, ErrorCode::InvalidIndexName),
{
    parse_odata_segment(raw, "indexes(", "index", ErrorCode::InvalidIndexName)
}

/// Parses the OData-style document path segment `docs('key')`.
pub fn parse_document_key(raw: &str) -> (r: Result<String, ApiError>)
    ensures
        text_result(r) == named_segment(raw@, "docs("@, "document"@, ErrorCode::InvalidRequest),
{
    parse_odata_segment(raw, "docs(", "document", ErrorCode::InvalidRequest)
}

/// The four kinds, in the order in which they are tried.
pub open spec fn kinds() -> Seq<ResourceKind> {
    seq![
        ResourceKind::SynonymMap,
        ResourceKind::Alias,
        ResourceKind::KnowledgeSource,
        ResourceKind::KnowledgeBase,
    ]
}

/// The kind and name of a named resource's segment, from the kind at place `i`
/// on; nothing where the segment is not one.
pub open spec fn resource_segment(raw: Seq<char>, i: int) -> Result<
    Option<(ResourceKind, Seq<char>)>,
    ApiErrorV,
>
    decreases 4 - i,
{
    if i >= 4 {
        Ok(None)
    } else {
        let kind = kinds()[i];
        if kind.path_prefix_spec().is_prefix_of(raw) {
            match segment_name(raw, kind.path_prefix_spec()) {
                Some(name) => Ok(Some((kind, name))),
                None => Err(kind.segment_error(raw)),
            }
        } else {
            resource_segment(raw, i + 1)
        }
    }
}

/// Parses an OData-style named resource path segment (`synonymmaps('name')`,
/// `aliases('name')`, `knowledgesources('name')`, `knowledgebases('name')`) into
/// its kind and name. Gives `Ok(None)` when the segment is not a named resource
/// (i.e. an index segment).
pub fn parse_named_resource_segment(raw: &str) -> (r: Result<
    Option<(ResourceKind, String)>,
    ApiError,
>)
    ensures
        match resource_segment(raw@, 0) {
            Ok(Some((kind, name))) => r is Ok && r->Ok_0 is Some && r->Ok_0->Some_0.0 == kind
                && r->Ok_0->Some_0.1@ == name,
            Ok(None) => r is Ok && r->Ok_0 is None,
            Err(e) => r is Err && r->Err_0@ == e,
        },
{
    let all = all_kinds();
    let mut i: usize = 0;
    while i < 4
        invariant
            all@ == kinds(),
            i <= 4,
            resource_segment(raw@, 0) == resource_segment(raw@, i as int),
        decreases 4 - i,
    {
        let kind = all[i];
        assert(kind == kinds()[i as int]);
        if starts_with(raw, kind.path_prefix()) {
            return match split_odata_segment(raw, kind.path_prefix()) {
                Some(name) => Ok(Some((kind, name))),
                None => Err(kind.invalid_segment_error(raw)),
            };
        }
        i += 1;
    }
    Ok(None)
}

// ---------------------------------------------------------------------------
// Paths
// ---------------------------------------------------------------------------

/// Whether a path is a named (`resource('name')`) segment of a collection.
pub open spec fn is_named(path: Seq<char>, collection: Seq<char>) -> bool {
    collection.is_prefix_of(path) && path.len() > collection.len() && path[collection.len() as int]
        == '('
}

/// Whether `path` is a named (`resource('name')`) segment of a collection: it
/// starts with the collection path (e.g. `/indexes`) followed by `(`.
pub fn is_named_segment(path: &str, collection: &str) -> (r: bool)
    ensures
        r == is_named(path@, collection@),
{
    if !starts_with(path, collection) {
        return false;
    }
    let p = chars_of(path);
    let n: usize = chars_of(collection).len();
    n < p.len() && p[n] == '('
}

/// Whether a path is a collection or a named segment of one.
pub open spec fn on_collection(path: Seq<char>, collection: Seq<char>) -> bool {
    path == collection || is_named(path, collection)
}

/// Whether a request path needs an API key and a supported API version.
pub open spec fn on_surface(path: Seq<char>) -> bool {
    path == "/servicestats"@ || on_collection(path, "/indexes"@) || exists|i: int|
        0 <= i < 4 && on_collection(path, (#[trigger] kinds()[i]).collection_path_spec())
}

/// Whether a request path is on the compatible surface that requires an API key
/// and a supported `api-version`: the collection and named (`resource('name')`)
/// routes for indexes, synonym maps, aliases, knowledge sources, and knowledge
/// bases, plus `/servicestats`.
pub fn is_azure_surface_path(path: &str) -> (r: bool)
    ensures
        r == on_surface(path@),
{
    if same_text(path, "/servicestats") || same_text(path, "/indexes") || is_named_segment(
        path,
        "/indexes",
    ) {
        return true;
    }
    let all = all_kinds();
    let mut i: usize = 0;
    while i < 4
        invariant
            all@ == kinds(),
            i <= 4,
            forall|k: int|
                0 <= k < i ==> !on_collection(
                    path@,
                    (#[trigger] kinds()[k]).collection_path_spec(),
                ),
        decreases 4 - i,
    {
        let kind = all[i];
        assert(kind == kinds()[i as int]);
        if same_text(path, kind.collection_path()) || is_named_segment(
            path,
            kind.collection_path(),
        ) {
            return true;
        }
        i += 1;
    }
    false
}

/// The index that a path names, for logging.
pub open spec fn logged_index(path: Seq<char>) -> Option<Seq<char>> {
    match after_prefix(path, "/indexes("@) {
        None => None,
        Some(rest) => unquoted(pieces(rest, ')')[0]),
    }
}

pub fn extract_index(path: &str) -> (r: Option<String>)
    ensures
        opt_text(r) == logged_index(path@),
{
    match strip_prefix(path, "/indexes(") {
        None => None,
        Some(rest) => {
            let parts = split_on(rest.as_str(), ')');
            assert(texts(parts@)[0] == parts@[0]@);
            unquote_name(parts[0].as_str())
        },
    }
}

/// The logging operation name of a path on the resources from the kind at place
/// `i` on.
pub open spec fn resource_operation(method: Seq<char>, path: Seq<char>, i: int) -> Option<Seq<char>>
    decreases 4 - i,
{
    if i >= 4 {
        None
    } else {
        let kind = kinds()[i];
        if path == kind.collection_path_spec() {
            if method == "POST"@ {
                Some(kind.create_operation_spec())
            } else {
                Some(kind.list_operation_spec())
            }
        } else if is_named(path, kind.collection_path_spec()) {
            Some(kind.named_operation_spec(method))
        } else {
            resource_operation(method, path, i + 1)
        }
    }
}

/// The logging operation name of a request.
pub open spec fn operation_of(method: Seq<char>, path: Seq<char>) -> Seq<char> {
    if path == "/health"@ {
        "health"@
    } else if path == "/admin/reset"@ {
        "adminReset"@
    } else if has_part(path, "/docs/search.index"@) {
        "uploadDocuments"@
    } else if has_part(path, "/docs/search.post.search"@) {
        "search"@
    } else if has_part(path, "/docs/search.post.autocomplete"@) {
        "autocomplete"@
    } else if has_part(path, "/docs/search.post.suggest"@) {
        "suggest"@
    } else if has_part(path, "/docs("@) {
        if method == "GET"@ {
            "getDocument"@
        } else {
            "unknown"@
        }
    } else {
        match resource_operation(method, path, 0) {
            Some(o) => o,
            None => if method == "PUT"@ {
                "createIndex"@
            } else if method == "DELETE"@ {
                "deleteIndex"@
            } else if method == "GET"@ {
                "getIndex"@
            } else {
                "unknown"@
            },
        }
    }
}

/// The logging operation name for a request: fixed routes and document subpaths
/// come first; the named resource routes are derived from [`ResourceKind`].
pub fn operation_for(method: &str, path: &str) -> (r: &'static str)
    ensures
        r@ == operation_of(method@, path@),
{
    if same_text(path, "/health") {
        return "health";
    }
    if same_text(path, "/admin/reset") {
        return "adminReset";
    }
    if contains_text(path, "/docs/search.index") {
        return "uploadDocuments";
    }
    if contains_text(path, "/docs/search.post.search") {
        return "search";
    }
    if contains_text(path, "/docs/search.post.autocomplete") {
        return "autocomplete";
    }
    if contains_text(path, "/docs/search.post.suggest") {
        return "suggest";
    }
    if contains_text(path, "/docs(") {
        return if same_text(method, "GET") {
            "getDocument"
        } else {
            "unknown"
        };
    }
    let all = all_kinds();
    let mut i: usize = 0;
    while i < 4
        invariant
            all@ == kinds(),
            i <= 4,
            resource_operation(method@, path@, 0) == resource_operation(method@, path@, i as int),
            operation_of(method@, path@) == (match resource_operation(method@, path@, 0) {
                Some(o) => o,
                None => if method@ == "PUT"@ {
                    "createIndex"@
                } else if method@ == "DELETE"@ {
                    "deleteIndex"@
                } else if method@ == "GET"@ {
                    "getIndex"@
                } else {
                    "unknown"@
                },
            }),
        decreases 4 - i,
    {
        let kind = all[i];
        assert(kind == kinds()[i as int]);
        if same_text(path, kind.collection_path()) {
            return if same_text(method, "POST") {
                kind.create_operation()
            } else {
                kind.list_operation()
            };
        }
        if is_named_segment(path, kind.collection_path()) {
            return kind.named_operation(method);
        }
        i += 1;
    }
    if same_text(method, "PUT") {
        "createIndex"
    } else if same_text(method, "DELETE") {
        "deleteIndex"
    } else if same_text(method, "GET") {
        "getIndex"
    } else {
        "unknown"
    }
}

// ---------------------------------------------------------------------------
// Laws
// ---------------------------------------------------------------------------

/// A segment that is written for a name reads as that name, whatever characters
/// the name holds. The empty name is left out.
pub proof fn law_written_segment_is_read(prefix: Seq<char>, name: Seq<char>)
    requires
        name.len() > 0,
    ensures
        segment_name(prefix + ("'"@ + name + "'"@) + ")"@, prefix) == Some(name),
{
    reveal_strlit("'");
    reveal_strlit(")");
    let inner = "'"@ + name + "'"@;
    let raw = prefix + inner + ")"@;
    assert(raw.skip(prefix.len() as int) =~= inner + ")"@);
    assert((inner + ")"@).take(inner.len() as int) =~= inner);
    assert(")"@.is_suffix_of(inner + ")"@));
    assert("'"@.is_prefix_of(inner));
    assert(inner.skip(1) =~= name + "'"@);
    assert("'"@.is_suffix_of(name + "'"@));
    assert((name + "'"@).take(name.len() as int) =~= name);
    assert(prefix.is_prefix_of(raw));
}

/// A path on the surface of one resource kind is on the surface.
pub proof fn law_named_paths_are_guarded(path: Seq<char>, i: int)
    requires
        0 <= i < 4,
        is_named(path, kinds()[i].collection_path_spec()),
    ensures
        on_surface(path),
{
    assert(on_collection(path, kinds()[i].collection_path_spec()));
}

} // verus!
