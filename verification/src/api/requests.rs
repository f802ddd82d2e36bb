//! What a request asks for.
use crate::api::bodies::{
    body_name, name_check, name_in_body, read_string_member, read_string_or_empty, resource_check,
    string_member, string_or_empty, validate_named_body, validate_named_resource_body,
};
use crate::api::segments::{
    is_azure_surface_path, named_segment, on_surface, parse_document_key, parse_index_name,
    parse_named_resource_segment, parse_odata_segment, resource_segment, text_result,
};
use crate::config::Config;
use crate::error::{ApiError, ApiErrorV, ErrorCode, bad_request_v, invalid_index_v, unit_result};
use crate::json::{Json, JsonV, str_of};
use crate::query::analyzers::opt_str;
use crate::semantic::config::{member_of, value_member};
use crate::service::resources::ResourceKind;
use crate::service::synonyms::SynonymMap;
use crate::storage::document::Document;
use crate::text::{cat3, debug_text, opt_text, quoted, same_text, starts_with, texts, trim, trimmed};
use vstd::prelude::*;

verus! {

// ---------------------------------------------------------------------------
// Access
// ---------------------------------------------------------------------------

/// Whether a request needs a supported API version, or why it is refused. Any
/// key that is not blank is accepted on the guarded surface.
pub open spec fn access_of(path: Seq<char>, api_key: Option<Seq<char>>) -> Result<bool, ApiErrorV> {
    if !on_surface(path) {
        Ok(false)
    } else if api_key is None || trim(api_key->Some_0).len() == 0 {
        Err(
            ApiErrorV {
                status: 401,
                code: ErrorCode::AuthenticationFailed,
                message: "An API key is required. Provide a non-empty 'api-key' header."@,
            },
        )
    } else {
        Ok(true)
    }
}

/// Authentication guard for the compatible surface: any non-empty `api-key`
/// header is accepted; a missing or blank one is refused. Gives whether the
/// `api-version` query parameter is required and must be supported; everything
/// else falls through to routing.
pub fn check_access(path: &str, api_key: Option<&str>) -> (r: Result<bool, ApiError>)
    ensures
        match access_of(path@, opt_str(api_key)) {
            Ok(b) => r is Ok && r->Ok_0 == b,
            Err(e) => r is Err && r->Err_0@ == e,
        },
{
    if !is_azure_surface_path(path) {
        return Ok(false);
    }
    let blank = match api_key {
        Some(k) => trimmed(k).as_str().is_empty(),
        None => true,
    };
    if blank {
        return Err(
            ApiError::authentication_failed(
                "An API key is required. Provide a non-empty 'api-key' header.",
            ),
        );
    }
    Ok(true)
}

/// Whether a version is served.
pub open spec fn serves_version(versions: Seq<Seq<char>>, version: Option<Seq<char>>) -> Result<
    (),
    ApiErrorV,
> {
    match version {
        None => Err(
            bad_request_v(
                ErrorCode::ApiVersionMissing,
                "The api-version query parameter is required."@,
            ),
        ),
        Some(v) => if versions.contains(v) {
            Ok(())
        } else {
            Err(
                bad_request_v(
                    ErrorCode::ApiVersionUnsupported,
                    "The api-version "@ + debug_text(v) + " is not supported."@,
                ),
            )
        },
    }
}

/// API-version guard: the `api-version` query parameter is required and must be
/// one that the configuration supports.
pub fn check_version(config: &Config, version: Option<&str>) -> (r: Result<(), ApiError>)
    ensures
        unit_result(r) == serves_version(texts(config.api_versions@), opt_str(version)),
{
    match version {
        None => Err(
            ApiError::bad_request(
                ErrorCode::ApiVersionMissing,
                "The api-version query parameter is required.",
            ),
        ),
        Some(v) => if config.supports_api_version(v) {
            Ok(())
        } else {
            Err(
                ApiError::bad_request(
                    ErrorCode::ApiVersionUnsupported,
                    cat3("The api-version ", quoted(v).as_str(), " is not supported.").as_str(),
                ),
            )
        },
    }
}

// ---------------------------------------------------------------------------
// One segment
// ---------------------------------------------------------------------------

/// What a single path segment leads to.
#[derive(Debug, PartialEq, Eq)]
pub enum Target {
    Resource(ResourceKind, String),
    Index(String),
}

/// The mathematical value of a [`Target`].
pub enum TargetV {
    Resource(ResourceKind, Seq<char>),
    Index(Seq<char>),
}

impl View for Target {
    type V = TargetV;

    open spec fn view(&self) -> TargetV {
        match self {
            Target::Resource(kind, name) => TargetV::Resource(*kind, name@),
            Target::Index(name) => TargetV::Index(name@),
        }
    }
}

/// What a single path segment leads to: a named resource, or an index.
pub open spec fn target_of_segment(raw: Seq<char>) -> Result<TargetV, ApiErrorV> {
    match resource_segment(raw, 0) {
        Err(e) => Err(e),
        Ok(Some((kind, name))) => Ok(TargetV::Resource(kind, name)),
        Ok(None) => match named_segment(
            raw,
            "indexes("@,
            "index"@,
            ErrorCode::InvalidIndexName,
        ) {
            Err(e) => Err(e),
            Ok(name) => Ok(TargetV::Index(name)),
        },
    }
}

pub open spec fn target_result(r: Result<Target, ApiError>) -> Result<TargetV, ApiErrorV> {
    match r {
        Ok(t) => Ok(t@),
        Err(e) => Err(e@),
    }
}

/// Reads a single path segment: the named resource routes
/// (`synonymmaps('{name}')`, `aliases('{name}')`, `knowledgesources('{name}')`,
/// `knowledgebases('{name}')`) share the route with `indexes('{name}')`.
pub fn read_target(raw: &str) -> (r: Result<Target, ApiError>)
    ensures
        target_result(r) == target_of_segment(raw@),
{
    match parse_named_resource_segment(raw) {
        Err(e) => Err(e),
        Ok(Some((kind, name))) => Ok(Target::Resource(kind, name)),
        Ok(None) => {
            let name = parse_index_name(raw)?;
            Ok(Target::Index(name))
        },
    }
}

/// What a `PUT` stores.
#[derive(Debug, PartialEq, Eq)]
pub enum PutRequest {
    SynonymMap { name: String, format: String, synonyms: String },
    Resource { kind: ResourceKind, name: String },
    Index,
}

/// The mathematical value of a [`PutRequest`].
pub enum PutRequestV {
    SynonymMap { name: Seq<char>, format: Seq<char>, synonyms: Seq<char> },
    Resource { kind: ResourceKind, name: Seq<char> },
    Index,
}

impl View for PutRequest {
    type V = PutRequestV;

    open spec fn view(&self) -> PutRequestV {
        match self {
            PutRequest::SynonymMap { name, format, synonyms } => PutRequestV::SynonymMap {
                name: name@,
                format: format@,
                synonyms: synonyms@,
            },
            PutRequest::Resource { kind, name } => PutRequestV::Resource {
                kind: *kind,
                name: name@,
            },
            PutRequest::Index => PutRequestV::Index,
        }
    }
}

/// What a `PUT` of a named resource stores, or why it is refused: the name in the
/// body must be that in the path, and the body must have the shape of its kind.
pub open spec fn put_resource_of(kind: ResourceKind, name: Seq<char>, body: JsonV) -> Result<
    PutRequestV,
    ApiErrorV,
> {
    if kind is SynonymMap {
        if string_or_empty(body, "name"@) != name {
            Err(
                bad_request_v(
                    ErrorCode::InvalidSynonymMap,
                    "Synonym map name in path ("@ + debug_text(name)
                        + ") does not match name in body."@,
                ),
            )
        } else {
            Ok(
                PutRequestV::SynonymMap {
                    name,
                    format: string_or_empty(body, "format"@),
                    synonyms: string_or_empty(body, "synonyms"@),
                },
            )
        }
    } else {
        match name_check(name, body, kind.label_spec(), kind.invalid_error_spec()) {
            Err(e) => Err(e),
            Ok(_) => match resource_check(kind, body) {
                Err(e) => Err(e),
                Ok(_) => Ok(PutRequestV::Resource { kind, name }),
            },
        }
    }
}

/// What a `PUT` stores, or why it is refused.
pub open spec fn put_request_of(raw: Seq<char>, body: JsonV) -> Result<PutRequestV, ApiErrorV> {
    match target_of_segment(raw) {
        Err(e) => Err(e),
        Ok(TargetV::Resource(kind, name)) => put_resource_of(kind, name, body),
        Ok(TargetV::Index(name)) => if name != string_or_empty(body, "name"@) {
            Err(
                invalid_index_v(
                    "Index name in path ("@ + debug_text(name)
                        + ") does not match index name in body."@,
                ),
            )
        } else {
            Ok(PutRequestV::Index)
        },
    }
}

pub open spec fn put_request_result(r: Result<PutRequest, ApiError>) -> Result<
    PutRequestV,
    ApiErrorV,
> {
    match r {
        Ok(p) => Ok(p@),
        Err(e) => Err(e@),
    }
}

fn read_put_resource(kind: ResourceKind, name: String, body: &Json) -> (r: Result<
    PutRequest,
    ApiError,
>)
    ensures
        put_request_result(r) == put_resource_of(kind, name@, body@),
{
    if kind == ResourceKind::SynonymMap {
        if !same_text(read_string_or_empty(body, "name"), name.as_str()) {
            return Err(
                ApiError::bad_request(
                    ErrorCode::InvalidSynonymMap,
                    cat3(
                        "Synonym map name in path (",
                        quoted(name.as_str()).as_str(),
                        ") does not match name in body.",
                    ).as_str(),
                ),
            );
        }
        let format = read_string_or_empty(body, "format").to_owned();
        let synonyms = read_string_or_empty(body, "synonyms").to_owned();
        return Ok(PutRequest::SynonymMap { name, format, synonyms });
    }
    validate_named_body(name.as_str(), body, kind.label(), kind.invalid_error())?;
    validate_named_resource_body(kind, body)?;
    Ok(PutRequest::Resource { kind, name })
}

/// Reads a `PUT` request on a single path segment: create or update of an index
/// or of a named resource.
pub fn read_put_request(raw: &str, body: &Json) -> (r: Result<PutRequest, ApiError>)
    ensures
        put_request_result(r) == put_request_of(raw@, body@),
{
    match read_target(raw)? {
        Target::Resource(kind, name) => read_put_resource(kind, name, body),
        Target::Index(name) => {
            if !same_text(name.as_str(), read_string_or_empty(body, "name")) {
                return Err(
                    ApiError::invalid_index(
                        cat3(
                            "Index name in path (",
                            quoted(name.as_str()).as_str(),
                            ") does not match index name in body.",
                        ).as_str(),
                    ),
                );
            }
            Ok(PutRequest::Index)
        },
    }
}

/// The name of the resource that a `POST` on a collection creates, or why it is
/// refused.
pub open spec fn post_resource_of(kind: ResourceKind, body: JsonV) -> Result<
    Seq<char>,
    ApiErrorV,
> {
    match name_in_body(body, kind.label_spec(), kind.invalid_error_spec()) {
        Err(e) => Err(e),
        Ok(name) => match resource_check(kind, body) {
            Err(e) => Err(e),
            Ok(_) => Ok(name),
        },
    }
}

/// Reads a `POST` request on a named resource collection (aliases, knowledge
/// sources, knowledge bases): the name comes from the body.
pub fn read_post_resource(kind: ResourceKind, body: &Json) -> (r: Result<String, ApiError>)
    ensures
        text_result(r) == post_resource_of(kind, body@),
{
    let name = body_name(body, kind.label(), kind.invalid_error())?;
    validate_named_resource_body(kind, body)?;
    Ok(name)
}

/// The name, format, and rules of a synonym map in a body.
pub fn read_synonym_map(body: &Json) -> (r: (String, String, String))
    ensures
        r.0@ == string_or_empty(body@, "name"@),
        r.1@ == string_or_empty(body@, "format"@),
        r.2@ == string_or_empty(body@, "synonyms"@),
{
    (
        read_string_or_empty(body, "name").to_owned(),
        read_string_or_empty(body, "format").to_owned(),
        read_string_or_empty(body, "synonyms").to_owned(),
    )
}

// ---------------------------------------------------------------------------
// Two segments
// ---------------------------------------------------------------------------

/// What two path segments ask for.
#[derive(Debug, PartialEq)]
pub enum PairRequest {
    NotFound,
    MethodNotAllowed,
    Retrieve(String),
    Document(String, String),
    Refused(ApiError),
}

/// The mathematical value of a [`PairRequest`].
pub enum PairRequestV {
    NotFound,
    MethodNotAllowed,
    Retrieve(Seq<char>),
    Document(Seq<char>, Seq<char>),
    Refused(ApiErrorV),
}

impl View for PairRequest {
    type V = PairRequestV;

    open spec fn view(&self) -> PairRequestV {
        match self {
            PairRequest::NotFound => PairRequestV::NotFound,
            PairRequest::MethodNotAllowed => PairRequestV::MethodNotAllowed,
            PairRequest::Retrieve(name) => PairRequestV::Retrieve(name@),
            PairRequest::Document(index, key) => PairRequestV::Document(index@, key@),
            PairRequest::Refused(e) => PairRequestV::Refused(e@),
        }
    }
}

/// What a request on a knowledge base asks for.
pub open spec fn retrieve_of(method: Seq<char>, raw_name: Seq<char>, raw_key: Seq<char>) -> PairRequestV {
    let kind = ResourceKind::KnowledgeBase;
    if raw_key != "retrieve"@ {
        PairRequestV::NotFound
    } else if method != "POST"@ {
        PairRequestV::MethodNotAllowed
    } else {
        match named_segment(
            raw_name,
            kind.path_prefix_spec(),
            kind.label_spec(),
            kind.invalid_error_spec(),
        ) {
            Ok(name) => PairRequestV::Retrieve(name),
            Err(e) => PairRequestV::Refused(e),
        }
    }
}

/// What a request on a document asks for.
pub open spec fn document_of_pair(
    method: Seq<char>,
    raw_name: Seq<char>,
    raw_key: Seq<char>,
) -> PairRequestV {
    if method != "GET"@ {
        PairRequestV::NotFound
    } else {
        match named_segment(raw_name, "indexes("@, "index"@, ErrorCode::InvalidIndexName) {
            Err(e) => PairRequestV::Refused(e),
            Ok(index) => match named_segment(
                raw_key,
                "docs("@,
                "document"@,
                ErrorCode::InvalidRequest,
            ) {
                Err(e) => PairRequestV::Refused(e),
                Ok(key) => PairRequestV::Document(index, key),
            },
        }
    }
}

/// What two path segments ask for.
pub open spec fn pair_request_of(
    method: Seq<char>,
    raw_name: Seq<char>,
    raw_key: Seq<char>,
) -> PairRequestV {
    if ResourceKind::KnowledgeBase.path_prefix_spec().is_prefix_of(raw_name) {
        retrieve_of(method, raw_name, raw_key)
    } else {
        document_of_pair(method, raw_name, raw_key)
    }
}

/// Reads a `POST /knowledgebases('{name}')/retrieve` request. Other methods on
/// the retrieve route are not allowed; any other second segment on a knowledge
/// base is not a route.
pub fn knowledge_base_retrieve(method: &str, raw_name: &str, raw_key: &str) -> (r: PairRequest)
    ensures
        r@ == retrieve_of(method@, raw_name@, raw_key@),
{
    if !same_text(raw_key, "retrieve") {
        return PairRequest::NotFound;
    }
    if !same_text(method, "POST") {
        return PairRequest::MethodNotAllowed;
    }
    let kind = ResourceKind::KnowledgeBase;
    match parse_odata_segment(raw_name, kind.path_prefix(), kind.label(), kind.invalid_error()) {
        Ok(name) => PairRequest::Retrieve(name),
        Err(e) => PairRequest::Refused(e),
    }
}

/// Reads a `GET /indexes('{name}')/docs('{key}')` request. Any other method on a
/// two-segment path is not a route.
pub fn get_document_by_key(method: &str, raw_name: &str, raw_key: &str) -> (r: PairRequest)
    ensures
        r@ == document_of_pair(method@, raw_name@, raw_key@),
{
    if !same_text(method, "GET") {
        return PairRequest::NotFound;
    }
    let index = match parse_index_name(raw_name) {
        Ok(name) => name,
        Err(e) => return PairRequest::Refused(e),
    };
    match parse_document_key(raw_key) {
        Ok(key) => PairRequest::Document(index, key),
        Err(e) => PairRequest::Refused(e),
    }
}

/// Reads a request on two segments: routes on the first segment's prefix, the
/// knowledge-base `retrieve` route or the index document route.
pub fn document_by_key(method: &str, raw_name: &str, raw_key: &str) -> (r: PairRequest)
    ensures
        r@ == pair_request_of(method@, raw_name@, raw_key@),
{
    if starts_with(raw_name, ResourceKind::KnowledgeBase.path_prefix()) {
        knowledge_base_retrieve(method, raw_name, raw_key)
    } else {
        get_document_by_key(method, raw_name, raw_key)
    }
}

// ---------------------------------------------------------------------------
// Analysis
// ---------------------------------------------------------------------------

/// An analyze-text request.
#[derive(Debug, PartialEq, Eq)]
pub struct AnalyzeRequest {
    pub text: String,
    pub analyzer: Option<String>,
    pub field: Option<String>,
}

/// The mathematical value of an [`AnalyzeRequest`].
pub struct AnalyzeRequestV {
    pub text: Seq<char>,
    pub analyzer: Option<Seq<char>>,
    pub field: Option<Seq<char>>,
}

impl View for AnalyzeRequest {
    type V = AnalyzeRequestV;

    open spec fn view(&self) -> AnalyzeRequestV {
        AnalyzeRequestV {
            text: self.text@,
            analyzer: opt_text(self.analyzer),
            field: opt_text(self.field),
        }
    }
}

/// A string under the first of two names that a value has.
pub open spec fn aliased_member(v: JsonV, first: Seq<char>, second: Seq<char>) -> Option<Seq<char>> {
    match member_of(v, first) {
        Some(x) => str_of(x),
        None => string_member(v, second),
    }
}

fn read_aliased(v: &Json, first: &str, second: &str) -> (r: Option<String>)
    ensures
        opt_text(r) == aliased_member(v@, first@, second@),
{
    let found = match value_member(v, first) {
        Some(x) => x.as_str(),
        None => read_string_member(v, second),
    };
    match found {
        Some(s) => Some(s.to_owned()),
        None => None,
    }
}

/// What an analyze-text body asks for.
pub open spec fn analyze_request_of(body: JsonV) -> Result<AnalyzeRequestV, ApiErrorV> {
    match string_member(body, "text"@) {
        None => Err(
            bad_request_v(ErrorCode::InvalidRequest, "The \"text\" field is required."@),
        ),
        Some(text) => Ok(
            AnalyzeRequestV {
                text,
                analyzer: aliased_member(body, "analyzer"@, "analyzerName"@),
                field: aliased_member(body, "field"@, "fieldName"@),
            },
        ),
    }
}

/// Reads an analyze-text body: the `text`, an explicit `analyzer`
/// (`analyzerName` alias accepted), and a `field` (`fieldName` alias accepted).
pub fn read_analyze_request(body: &Json) -> (r: Result<AnalyzeRequest, ApiError>)
    ensures
        match analyze_request_of(body@) {
            Ok(a) => r is Ok && r->Ok_0@ == a,
            Err(e) => r is Err && r->Err_0@ == e,
        },
{
    let text = match read_string_member(body, "text") {
        Some(s) => s.to_owned(),
        None => {
            return Err(
                ApiError::bad_request(
                    ErrorCode::InvalidRequest,
                    "The \"text\" field is required.",
                ),
            );
        },
    };
    Ok(
        AnalyzeRequest {
            text,
            analyzer: read_aliased(body, "analyzer", "analyzerName"),
            field: read_aliased(body, "field", "fieldName"),
        },
    )
}

// ---------------------------------------------------------------------------
// Laws
// ---------------------------------------------------------------------------

/// A request off the guarded surface passes whatever key it has.
pub proof fn law_open_paths_need_no_key(path: Seq<char>, api_key: Option<Seq<char>>)
    requires
        !on_surface(path),
    ensures
        access_of(path, api_key) is Ok,
        access_of(path, api_key)->Ok_0 == false,
{
}

/// A request on the guarded surface passes where it has a key that is not blank,
/// and only there; its version is then checked.
pub proof fn law_guarded_paths_need_a_key(path: Seq<char>, api_key: Option<Seq<char>>)
    requires
        on_surface(path),
    ensures
        access_of(path, api_key) is Ok <==> api_key is Some && trim(api_key->Some_0).len() > 0,
        access_of(path, api_key) is Ok ==> access_of(path, api_key)->Ok_0,
        access_of(path, api_key) is Err ==> access_of(path, api_key)->Err_0.status == 401,
{
}

} // verus!
