//! Documents, and field paths into them.
use crate::json::{Json, JsonMap, JsonV, group_json, member, ref_values, values};
use crate::text::{pieces, split_on, texts};
use vstd::prelude::*;

verus! {

/// A document stored in an index, under its key.
#[derive(Debug, PartialEq)]
pub struct Document {
    pub key: String,
    pub fields: JsonMap,
}

/// The mathematical value of a [`Document`].
pub struct DocumentV {
    pub key: Seq<char>,
    pub fields: Seq<(Seq<char>, JsonV)>,
}

impl View for Document {
    type V = DocumentV;

    open spec fn view(&self) -> DocumentV {
        DocumentV { key: self.key@, fields: self.fields@ }
    }
}

pub open spec fn document_views(v: Seq<Document>) -> Seq<DocumentV> {
    v.map_values(|d: Document| d@)
}

/// The members named `seg` of the objects among `items`.
pub open spec fn item_members(items: Seq<JsonV>, seg: Seq<char>) -> Seq<JsonV>
    decreases items.len(),
{
    if items.len() == 0 {
        seq![]
    } else {
        let rest = item_members(items.drop_last(), seg);
        match items.last() {
            JsonV::Object(m) => match member(m, seg) {
                Some(v) => rest.push(v),
                None => rest,
            },
            _ => rest,
        }
    }
}

/// What one path segment leads to from a value: its member of that name, or,
/// from an array, the members of that name of its elements.
pub open spec fn sub_values(v: JsonV, seg: Seq<char>) -> Seq<JsonV> {
    match v {
        JsonV::Array(items) => item_members(items, seg),
        _ => item_members(seq![v], seg),
    }
}

/// What one path segment leads to from several values.
pub open spec fn step_values(current: Seq<JsonV>, seg: Seq<char>) -> Seq<JsonV>
    decreases current.len(),
{
    if current.len() == 0 {
        seq![]
    } else {
        step_values(current.drop_last(), seg) + sub_values(current.last(), seg)
    }
}

/// What the path segments from `i` on lead to from several values.
pub open spec fn walk_values(current: Seq<JsonV>, segs: Seq<Seq<char>>, i: int) -> Seq<JsonV>
    decreases segs.len() - i,
{
    if i >= segs.len() {
        current
    } else {
        walk_values(step_values(current, segs[i]), segs, i + 1)
    }
}

/// The values that a field path (`Address/City`, or a plain field name) leads
/// to in a document.
pub open spec fn path_values(fields: Seq<(Seq<char>, JsonV)>, path: Seq<char>) -> Seq<JsonV> {
    let segs = pieces(path, '/');
    match member(fields, segs[0]) {
        Some(v) => walk_values(seq![v], segs, 1),
        None => seq![],
    }
}

fn push_item_member<'a>(item: &'a Json, seg: &str, out: &mut Vec<&'a Json>)
    ensures
        match item@ {
            JsonV::Object(m) => match member(m, seg@) {
                Some(v) => ref_values(final(out)@) == ref_values(old(out)@).push(v),
                None => final(out)@ == old(out)@,
            },
            _ => final(out)@ == old(out)@,
        },
{
    broadcast use group_json;

    if let Some(m) = item.as_object() {
        if let Some(v) = m.get(seg) {
            out.push(v);
        }
    }
}

fn push_sub_values<'a>(value: &'a Json, seg: &str, out: &mut Vec<&'a Json>)
    ensures
        ref_values(final(out)@) == ref_values(old(out)@) + sub_values(value@, seg@),
{
    broadcast use group_json;

    let ghost start = ref_values(out@);
    match value {
        Json::Array(items) => {
            let mut i: usize = 0;
            assert(values(items@).take(0) =~= seq![]);
            assert(start + item_members(values(items@).take(0), seg@) =~= start);
            while i < items.len()
                invariant
                    i <= items@.len(),
                    ref_values(out@) == start + item_members(values(items@).take(i as int), seg@),
                decreases items@.len() - i,
            {
                proof {
                    let t = values(items@).take(i + 1);
                    assert(t.drop_last() =~= values(items@).take(i as int));
                    assert(t.last() == items@[i as int]@);
                }
                push_item_member(&items[i], seg, out);
                assert(ref_values(out@) =~= start + item_members(
                    values(items@).take(i + 1),
                    seg@,
                ));
                i += 1;
            }
            assert(values(items@).take(items@.len() as int) =~= values(items@));
        },
        _ => {
            push_item_member(value, seg, out);
            proof {
                let one = seq![value@];
                assert(one.drop_last() =~= seq![]);
                assert(one.last() == value@);
                assert(item_members(one.drop_last(), seg@) =~= seq![]);
                assert(ref_values(out@) =~= start + item_members(one, seg@));
            }
        },
    }
}

/// Resolves a field path against a document's field map, walking into
/// complex-type objects. Where a segment leads to an array, the rest of the
/// path is resolved against every element.
pub fn resolve_field_path<'a>(fields: &'a JsonMap, path: &str) -> (r: Vec<&'a Json>)
    ensures
        ref_values(r@) == path_values(fields@, path@),
{
    broadcast use group_json;

    let segs = split_on(path, '/');
    let mut current: Vec<&'a Json> = Vec::new();
    assert(ref_values(current@) =~= seq![]);
    match fields.get(segs[0].as_str()) {
        Some(v) => {
            current.push(v);
            assert(ref_values(current@) =~= seq![v@]);
        },
        None => {
            return current;
        },
    }
    let ghost first = ref_values(current@);
    let mut i: usize = 1;
    while i < segs.len()
        invariant
            1 <= i <= segs@.len(),
            walk_values(first, texts(segs@), 1) == walk_values(
                ref_values(current@),
                texts(segs@),
                i as int,
            ),
        decreases segs@.len() - i,
    {
        let mut next: Vec<&'a Json> = Vec::new();
        let mut k: usize = 0;
        let ghost cur = ref_values(current@);
        let ghost seg = segs@[i as int]@;
        assert(cur.take(0) =~= seq![]);
        assert(ref_values(next@) =~= step_values(cur.take(0), seg));
        while k < current.len()
            invariant
                i < segs@.len(),
                seg == segs@[i as int]@,
                cur == ref_values(current@),
                k <= current@.len(),
                ref_values(next@) == step_values(cur.take(k as int), seg),
            decreases current@.len() - k,
        {
            proof {
                let t = cur.take(k + 1);
                assert(t.drop_last() =~= cur.take(k as int));
                assert(t.last() == current@[k as int]@);
            }
            push_sub_values(current[k], segs[i].as_str(), &mut next);
            k += 1;
        }
        assert(cur.take(cur.len() as int) =~= cur);
        current = next;
        i += 1;
    }
    current
}

impl Document {
    pub fn duplicate(&self) -> (r: Document)
        ensures
            r@ == self@,
    {
        Document { key: self.key.clone(), fields: self.fields.duplicate() }
    }

    /// The document as a JSON object.
    pub fn to_value(&self) -> (r: Json)
        ensures
            r@ == JsonV::Object(self@.fields),
    {
        broadcast use group_json;

        Json::Object(self.fields.duplicate())
    }

    /// The values that a field path leads to in this document.
    pub fn resolve_path(&self, path: &str) -> (r: Vec<&Json>)
        ensures
            ref_values(r@) == path_values(self@.fields, path@),
    {
        resolve_field_path(&self.fields, path)
    }
}

} // verus!
