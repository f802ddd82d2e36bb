//! Which requests are served, and what for.
use crate::api::bodies::{
    alias_check, first_value, knowledge_base_check, nonempty_member, request_param,
    resource_check, suggest_params_of, top_of,
};
use crate::api::requests::{TargetV, access_of, put_request_of, serves_version, target_of_segment};
use crate::api::segments::{on_collection, on_surface, segment_name};
use crate::error::ApiErrorV;
use crate::json::{JsonV, member, nonempty_str_of};
use crate::semantic::config::member_of;
use crate::service::resources::ResourceKind;
use crate::storage::laws::is_filled;
use crate::text::trim;
use vstd::prelude::*;

verus! {

// ---------------------------------------------------------------------------
// Paths
// ---------------------------------------------------------------------------

/// A segment names something only where it is written with its prefix, the name in
/// quotes and the closing parenthesis, and the name is not empty.
pub proof fn law_segment_is_written(raw: Seq<char>, prefix: Seq<char>, name: Seq<char>)
    ensures
        segment_name(raw, prefix) == Some(name) ==> raw == prefix + seq!['\''] + name + seq![
            '\'',
            ')',
        ] && name.len() > 0,
{
    reveal_strlit("'");
    reveal_strlit(")");
    if segment_name(raw, prefix) == Some(name) {
        let rest = raw.skip(prefix.len() as int);
        let inner = rest.take(rest.len() - 1);
        let quoted_name = inner.skip(1);
        assert(raw =~= prefix + rest) by {
            assert(raw.take(prefix.len() as int) =~= prefix);
        }
        assert(rest.last() == ')') by {
            assert(rest.subrange(rest.len() - 1, rest.len() as int)[0] == ")"@[0]);
        }
        assert(rest =~= inner + seq![')']);
        assert(inner[0] == '\'') by {
            assert(inner.subrange(0, 1)[0] == "'"@[0]);
        }
        assert(inner =~= seq!['\''] + quoted_name);
        assert(quoted_name.last() == '\'') by {
            assert(quoted_name.subrange(
                quoted_name.len() - 1,
                quoted_name.len() as int,
            )[0] == "'"@[0]);
        }
        assert(quoted_name =~= name + seq!['\'']);
        assert(raw =~= prefix + seq!['\''] + name + seq!['\'', ')']);
    }
}

/// Requests to the surface need a key that is not blank, and no other request does.
pub proof fn law_access(path: Seq<char>, key: Seq<char>)
    ensures
        access_of(path, Some(key)) is Err <==> on_surface(path) && trim(key).len() == 0,
        access_of(path, None) is Err <==> on_surface(path),
        access_of(path, Some(key)) matches Ok(b) ==> b == on_surface(path),
        on_surface("/indexes"@),
        on_surface("/servicestats"@),
{
    assert(on_collection("/indexes"@, "/indexes"@));
}

/// A version is served where it is one of the configured ones.
pub proof fn law_versions(versions: Seq<Seq<char>>, version: Seq<char>, i: int)
    ensures
        0 <= i < versions.len() && versions[i] == version ==> serves_version(
            versions,
            Some(version),
        ) is Ok,
        serves_version(versions, Some(version)) is Ok ==> exists|k: int|
            0 <= k < versions.len() && #[trigger] versions[k] == version,
        serves_version(versions, None) is Err,
{
    if serves_version(versions, Some(version)) is Ok {
        let k = choose|k: int| 0 <= k < versions.len() && versions[k] == version;
        assert(versions[k] == version);
    }
}

// ---------------------------------------------------------------------------
// Bodies
// ---------------------------------------------------------------------------

/// A resource that is put has the name of its path in its body.
pub proof fn law_put_names_agree(
    raw: Seq<char>,
    m: Seq<(Seq<char>, JsonV)>,
    kind: ResourceKind,
    name: Seq<char>,
)
    requires
        name.len() > 0,
    ensures
        target_of_segment(raw) == Ok::<TargetV, ApiErrorV>(TargetV::Index(name)) ==> (
        put_request_of(raw, JsonV::Object(m)) is Ok <==> member(m, "name"@) == Some(
            JsonV::String(name),
        )),
        target_of_segment(raw) == Ok::<TargetV, ApiErrorV>(TargetV::Resource(kind, name))
            && put_request_of(raw, JsonV::Object(m)) is Ok ==> member(m, "name"@) == Some(
            JsonV::String(name),
        ),
        target_of_segment(raw) == Ok::<TargetV, ApiErrorV>(TargetV::Resource(kind, name))
            && member(m, "name"@) == Some(JsonV::String(name)) ==> (put_request_of(
            raw,
            JsonV::Object(m),
        ) is Ok <==> resource_check(kind, JsonV::Object(m)) is Ok),
{
    reveal_strlit("");
}

/// An alias lists index names, at least one, and all of them texts that are not empty.
pub proof fn law_alias_bodies(m: Seq<(Seq<char>, JsonV)>, items: Seq<JsonV>)
    requires
        member(m, "indexes"@) == Some(JsonV::Array(items)),
    ensures
        alias_check(JsonV::Object(m)) is Ok <==> items.len() > 0 && forall|i: int|
            0 <= i < items.len() ==> is_filled(#[trigger] items[i]),
{
    assert(forall|i: int|
        0 <= i < items.len() ==> (is_filled(#[trigger] items[i]) <==> nonempty_str_of(
            Some(items[i]),
        ) is Some));
}

/// A knowledge base lists its sources, at least one, and each has a name.
pub proof fn law_knowledge_base_bodies(m: Seq<(Seq<char>, JsonV)>, items: Seq<JsonV>)
    requires
        member(m, "knowledgeSources"@) == Some(JsonV::Array(items)),
    ensures
        knowledge_base_check(JsonV::Object(m)) is Ok <==> items.len() > 0 && forall|i: int|
            0 <= i < items.len() ==> nonempty_member(#[trigger] items[i], "name"@) is Some,
{
}

/// A request for suggestions has a text and names a suggester; what the body says comes
/// before what the query says, and blank values are none.
pub proof fn law_suggest_request(
    raw: JsonV,
    pairs: Seq<(Seq<char>, Seq<char>)>,
    s: Seq<char>,
    key: Seq<char>,
)
    ensures
        member_of(raw, key) == Some(JsonV::String(s)) ==> request_param(raw, pairs, key) == (
        if trim(s).len() > 0 {
            Some(s)
        } else {
            None
        }),
        member_of(raw, key) is None && first_value(pairs, key) == Some(s) ==> request_param(
            raw,
            pairs,
            key,
        ) == (if trim(s).len() > 0 {
            Some(s)
        } else {
            None
        }),
        member_of(raw, key) is None && first_value(pairs, key) is None ==> request_param(
            raw,
            pairs,
            key,
        ) is None,
        suggest_params_of(raw, pairs) matches Ok(p) ==> {
            &&& request_param(raw, pairs, "suggesterName"@) == Some(p.suggester)
            &&& p.filter == request_param(raw, pairs, "filter"@)
            &&& top_of(raw, pairs) == Ok::<u64, ApiErrorV>(p.top)
            &&& request_param(raw, pairs, "search"@) is Some ==> request_param(
                raw,
                pairs,
                "search"@,
            ) == Some(p.search)
        },
        suggest_params_of(raw, pairs) is Err <==> request_param(raw, pairs, "search"@) is None
            && request_param(raw, pairs, "searchText"@) is None || request_param(
            raw,
            pairs,
            "suggesterName"@,
        ) is None || top_of(raw, pairs) is Err,
{
}

} // verus!
