//! What definitions say, from how they are written.
use crate::json::{JsonV, member, nonempty_str_of};
use crate::storage::definition::{
    FieldV, SuggesterV, field_of, field_with, fields_of, key_place, lemma_key_place,
    strings_member, suggester_fields, suggester_of,
};
use crate::storage::field_type::{normalized_type, type_named};
use crate::storage::index::{
    field_synonyms, fields_synonyms, index_of, key_of, semantic_member, suggester_named,
    suggesters_member, suggesters_of,
};
use vstd::prelude::*;

verus! {

/// The items of a list; none where there is no list.
pub open spec fn list_in(v: Option<JsonV>) -> Seq<JsonV> {
    match v {
        Some(JsonV::Array(items)) => items,
        _ => seq![],
    }
}

proof fn lemma_fields_read(items: Seq<JsonV>, i: int, done: Seq<FieldV>)
    requires
        0 <= i <= items.len(),
    ensures
        fields_of(items, i, done) is Ok <==> forall|k: int|
            i <= k < items.len() ==> field_of(#[trigger] items[k]) is Ok,
        fields_of(items, i, done) matches Ok(r) ==> r.len() == done.len() + items.len() - i && (
        forall|k: int| 0 <= k < done.len() ==> #[trigger] r[k] == done[k]) && (forall|k: int|
            i <= k < items.len() ==> field_of(#[trigger] items[k]) == Ok::<FieldV, Seq<char>>(
                r[done.len() + k - i],
            )),
    decreases items.len() - i,
{
    if i < items.len() {
        if let Ok(f) = field_of(items[i]) {
            let more = done.push(f);
            lemma_fields_read(items, i + 1, more);
            if let Ok(r) = fields_of(items, i, done) {
                assert forall|k: int| 0 <= k < done.len() implies #[trigger] r[k] == done[k] by {
                    assert(more[k] == done[k]);
                }
                assert(r[done.len() as int] == more[done.len() as int]);
            }
        } else {
            assert(field_of(items[i]) is Err);
        }
    }
}

proof fn lemma_suggesters_read(items: Seq<JsonV>, i: int, done: Seq<SuggesterV>)
    requires
        0 <= i <= items.len(),
    ensures
        suggesters_of(items, i, done) is Ok <==> forall|k: int|
            i <= k < items.len() ==> suggester_of(#[trigger] items[k]) is Ok,
        suggesters_of(items, i, done) matches Ok(r) ==> r.len() == done.len() + items.len() - i && (
        forall|k: int| 0 <= k < done.len() ==> #[trigger] r[k] == done[k]) && (forall|k: int|
            i <= k < items.len() ==> suggester_of(#[trigger] items[k]) == Ok::<
                SuggesterV,
                Seq<char>,
            >(r[done.len() + k - i])),
    decreases items.len() - i,
{
    if i < items.len() {
        if let Ok(f) = suggester_of(items[i]) {
            let more = done.push(f);
            lemma_suggesters_read(items, i + 1, more);
            if let Ok(r) = suggesters_of(items, i, done) {
                assert forall|k: int| 0 <= k < done.len() implies #[trigger] r[k] == done[k] by {
                    assert(more[k] == done[k]);
                }
                assert(r[done.len() as int] == more[done.len() as int]);
            }
        } else {
            assert(suggester_of(items[i]) is Err);
        }
    }
}

/// An index definition has a name and fields, each of which is read, in its place, and
/// so is each suggester; it is refused where one of them cannot be read.
pub proof fn law_every_field_is_read(
    m: Seq<(Seq<char>, JsonV)>,
    name: Seq<char>,
    items: Seq<JsonV>,
    k: int,
)
    requires
        name.len() > 0,
        member(m, "name"@) == Some(JsonV::String(name)),
        member(m, "fields"@) == Some(JsonV::Array(items)),
        items.len() > 0,
    ensures
        ({
            let r = index_of(JsonV::Object(m));
            let fields = fields_of(items, 0, seq![]);
            let suggesters = list_in(member(m, "suggesters"@));
            &&& r matches Ok(d) ==> {
                &&& d.name == name
                &&& d.raw == JsonV::Object(m)
                &&& d.fields.len() == items.len()
                &&& 0 <= k < items.len() ==> field_of(items[k]) == Ok::<FieldV, Seq<char>>(
                    d.fields[k],
                )
                &&& d.suggesters.len() == suggesters.len()
                &&& 0 <= k < suggesters.len() ==> suggester_of(suggesters[k]) == Ok::<
                    SuggesterV,
                    Seq<char>,
                >(d.suggesters[k])
            }
            &&& r is Ok <==> {
                &&& forall|i: int| 0 <= i < items.len() ==> field_of(#[trigger] items[i]) is Ok
                &&& forall|i: int|
                    0 <= i < suggesters.len() ==> suggester_of(#[trigger] suggesters[i]) is Ok
                &&& semantic_member(member(m, "semantic"@), fields->Ok_0) is Ok
            }
        }),
{
    let raw = JsonV::Object(m);
    assert(raw->Object_0 == m);
    lemma_fields_read(items, 0, seq![]);
    let list = list_in(member(m, "suggesters"@));
    lemma_suggesters_read(list, 0, seq![]);
    assert(suggesters_member(member(m, "suggesters"@)) == suggesters_of(list, 0, seq![]));
    if let Ok(d) = index_of(raw) {
        assert(fields_of(items, 0, seq![]) == Ok::<Seq<FieldV>, Seq<char>>(d.fields));
        if 0 <= k < list.len() {
            assert(suggester_of(list[k]) == Ok::<SuggesterV, Seq<char>>(d.suggesters[0 + k - 0]));
        }
        if 0 <= k < items.len() {
            assert(field_of(items[k]) == Ok::<FieldV, Seq<char>>(d.fields[0 + k - 0]));
        }
    }
}

/// Without a name or without fields there is no index.
pub proof fn law_index_needs_name_and_fields(m: Seq<(Seq<char>, JsonV)>, other: JsonV)
    ensures
        !(other is Object) ==> index_of(other) is Err,
        !(member(m, "name"@) matches Some(JsonV::String(_))) ==> index_of(JsonV::Object(m)) is Err,
        !(member(m, "fields"@) matches Some(JsonV::Array(_))) ==> index_of(JsonV::Object(m)) is Err,
        member(m, "fields"@) == Some(JsonV::Array(seq![])) ==> index_of(JsonV::Object(m)) is Err,
{
}

/// Whether an attribute is as a definition says, and as it is by itself where the
/// definition does not say.
pub open spec fn attribute_is(
    m: Seq<(Seq<char>, JsonV)>,
    key: Seq<char>,
    by_itself: bool,
    is: bool,
) -> bool {
    match member(m, key) {
        Some(JsonV::Bool(b)) => is == b,
        _ => is == by_itself,
    }
}

/// A field has the name, the type and the attributes that its definition says, and the
/// subfields, each in its place.
pub proof fn law_field_is_as_written(
    m: Seq<(Seq<char>, JsonV)>,
    name: Seq<char>,
    spelling: Seq<char>,
    k: int,
)
    requires
        name.len() > 0,
        spelling.len() > 0,
        member(m, "name"@) == Some(JsonV::String(name)),
        member(m, "type"@) == Some(JsonV::String(spelling)),
    ensures
        ({
            let r = field_of(JsonV::Object(m));
            let items = list_in(member(m, "fields"@));
            &&& r is Ok <==> forall|i: int|
                0 <= i < items.len() ==> field_of(#[trigger] items[i]) is Ok
            &&& r matches Ok(f) ==> {
                &&& f.name == name
                &&& f.field_type == type_named(normalized_type(spelling))
                &&& attribute_is(m, "key"@, false, f.is_key)
                &&& attribute_is(m, "searchable"@, false, f.searchable)
                &&& attribute_is(m, "filterable"@, false, f.filterable)
                &&& attribute_is(m, "sortable"@, false, f.sortable)
                &&& attribute_is(m, "facetable"@, false, f.facetable)
                &&& attribute_is(m, "retrievable"@, true, f.retrievable)
                &&& attribute_is(m, "stored"@, true, f.stored)
                &&& f.raw == JsonV::Object(m)
                &&& f.subfields.len() == items.len()
                &&& 0 <= k < items.len() ==> field_of(items[k]) == Ok::<FieldV, Seq<char>>(
                    f.subfields[k],
                )
            }
        }),
{
    let raw = JsonV::Object(m);
    let list = list_in(member(m, "fields"@));
    assert(raw->Object_0 == m);
    lemma_key_place(m, "fields"@);
    lemma_fields_read(list, 0, seq![]);
    let none = Seq::<FieldV>::empty();
    assert(field_of(raw) == (match fields_of(list, 0, none) {
        Err(e) => Err(e),
        Ok(subfields) => Ok(field_with(m, name, spelling, subfields)),
    })) by {
        let i = key_place(m, "fields"@);
        if i < m.len() {
            assert(member(m, "fields"@) == Some(m[i].1));
            if !(m[i].1 is Array) {
                assert(fields_of(list, 0, none) == Ok::<Seq<FieldV>, Seq<char>>(none));
            }
        } else {
            assert(fields_of(list, 0, none) == Ok::<Seq<FieldV>, Seq<char>>(none));
        }
    }
    if let Ok(f) = field_of(raw) {
        if 0 <= k < list.len() {
            assert(field_of(list[k]) == Ok::<FieldV, Seq<char>>(f.subfields[0 + k - 0]));
        }
    }
}

proof fn lemma_suggester_names(items: Seq<JsonV>, i: int, done: Seq<Seq<char>>, name: Seq<char>)
    requires
        0 <= i <= items.len(),
    ensures
        suggester_fields(items, i, done, name) is Ok <==> forall|k: int|
            i <= k < items.len() ==> is_filled(#[trigger] items[k]),
        suggester_fields(items, i, done, name) matches Ok(r) ==> r.len() == done.len()
            + items.len() - i && (forall|k: int| 0 <= k < done.len() ==> #[trigger] r[k] == done[k])
            && (forall|k: int|
            i <= k < items.len() ==> #[trigger] items[k] == JsonV::String(r[done.len() + k - i])),
    decreases items.len() - i,
{
    if i < items.len() {
        if let Some(s) = nonempty_str_of(Some(items[i])) {
            let more = done.push(s);
            lemma_suggester_names(items, i + 1, more, name);
            if let Ok(r) = suggester_fields(items, i, done, name) {
                assert forall|k: int| 0 <= k < done.len() implies #[trigger] r[k] == done[k] by {
                    assert(more[k] == done[k]);
                }
                assert(r[done.len() as int] == more[done.len() as int]);
            }
        } else {
            assert(!is_filled(items[i]));
        }
    }
}

/// Whether a value is a text that is not empty.
pub open spec fn is_filled(v: JsonV) -> bool {
    v matches JsonV::String(s) && s.len() > 0
}

/// A suggester has the name and the fields that its definition says, each in its place.
pub proof fn law_suggester_is_as_written(
    m: Seq<(Seq<char>, JsonV)>,
    name: Seq<char>,
    items: Seq<JsonV>,
    k: int,
)
    requires
        name.len() > 0,
        member(m, "name"@) == Some(JsonV::String(name)),
        member(m, "searchFields"@) == Some(JsonV::Array(items)) || member(m, "searchFields"@)
            is None && member(m, "sourceFields"@) == Some(JsonV::Array(items)),
    ensures
        ({
            let r = suggester_of(JsonV::Object(m));
            &&& r is Ok <==> forall|i: int| 0 <= i < items.len() ==> is_filled(#[trigger] items[i])
            &&& r matches Ok(s) ==> {
                &&& s.name == name
                &&& s.search_fields.len() == items.len()
                &&& 0 <= k < items.len() ==> items[k] == JsonV::String(s.search_fields[k])
            }
        }),
{
    lemma_suggester_names(items, 0, seq![], name);
    if let Ok(s) = suggester_of(JsonV::Object(m)) {
        if 0 <= k < items.len() {
            assert(items[k] == JsonV::String(s.search_fields[0 + k - 0]));
        }
    }
}

/// The key is the first field that says so, and a suggester is the first of its name.
pub proof fn law_first_one_is_found(
    fields: Seq<FieldV>,
    list: Seq<SuggesterV>,
    name: Seq<char>,
    i: int,
    at: int,
)
    ensures
        0 <= i <= at < fields.len() && fields[at].is_key && (forall|k: int|
            i <= k < at ==> !(#[trigger] fields[k]).is_key) ==> key_of(fields, i) == Some(
            fields[at],
        ),
        0 <= i <= at < list.len() && list[at].name == name && (forall|k: int|
            i <= k < at ==> (#[trigger] list[k]).name != name) ==> suggester_named(list, name, i)
            == Some(list[at]),
        0 <= i && (forall|k: int| i <= k < fields.len() ==> !(#[trigger] fields[k]).is_key)
            ==> key_of(fields, i) is None,
        0 <= i && (forall|k: int| i <= k < list.len() ==> (#[trigger] list[k]).name != name)
            ==> suggester_named(list, name, i) is None,
    decreases fields.len() + list.len() - i,
{
    if i < fields.len() || i < list.len() {
        law_first_one_is_found(fields, list, name, i + 1, at);
        if 0 <= i < at {
            if i < fields.len() {
                let f = fields[i];
            }
            if i < list.len() {
                let s = list[i];
            }
        }
    }
}

// ---------------------------------------------------------------------------
// Synonym maps
// ---------------------------------------------------------------------------

/// The names in a list are its texts that are not empty, in order.
pub proof fn law_names_in_a_list(items: Seq<JsonV>, x: JsonV)
    ensures
        strings_member(Some(JsonV::Array(seq![]))) == Seq::<Seq<char>>::empty(),
        strings_member(None) == Seq::<Seq<char>>::empty(),
        strings_member(Some(JsonV::Array(items.push(x)))) == (match x {
            JsonV::String(s) => if s.len() > 0 {
                strings_member(Some(JsonV::Array(items))).push(s)
            } else {
                strings_member(Some(JsonV::Array(items)))
            },
            _ => strings_member(Some(JsonV::Array(items))),
        }),
{
    assert(items.push(x).drop_last() =~= items);
}

proof fn lemma_fields_synonyms(fields: Seq<FieldV>, name: Seq<char>)
    ensures
        fields_synonyms(fields).contains(name) <==> exists|i: int|
            0 <= i < fields.len() && field_synonyms(#[trigger] fields[i]).contains(name),
    decreases fields.len(),
{
    if fields.len() > 0 {
        let few = fields.drop_last();
        let before = fields_synonyms(few);
        let own = field_synonyms(fields.last());
        let all = fields_synonyms(fields);
        lemma_fields_synonyms(few, name);
        assert(fields[fields.len() - 1] == fields.last());
        if before.contains(name) {
            let j = choose|j: int| 0 <= j < before.len() && before[j] == name;
            assert(all[j] == name);
            let i = choose|i: int|
                0 <= i < few.len() && field_synonyms(#[trigger] few[i]).contains(name);
            assert(fields[i] == few[i]);
        }
        if own.contains(name) {
            let j = choose|j: int| 0 <= j < own.len() && own[j] == name;
            assert(all[before.len() as int + j] == name);
        }
        if all.contains(name) {
            let j = choose|j: int| 0 <= j < all.len() && all[j] == name;
            if j < before.len() {
                assert(before[j] == name);
            } else {
                assert(own[j - before.len()] == name);
                assert(field_synonyms(fields[fields.len() - 1]).contains(name));
            }
        }
        if exists|i: int|
            0 <= i < fields.len() && field_synonyms(#[trigger] fields[i]).contains(name) {
            let i = choose|i: int|
                0 <= i < fields.len() && field_synonyms(#[trigger] fields[i]).contains(name);
            if i < few.len() {
                assert(few[i] == fields[i]);
            }
        }
    }
}

/// The synonym maps of fields are those that any of them names, or that a field inside
/// one does.
pub proof fn law_synonym_maps_of_fields(fields: Seq<FieldV>, f: FieldV, name: Seq<char>)
    ensures
        fields_synonyms(fields).contains(name) <==> exists|i: int|
            0 <= i < fields.len() && field_synonyms(#[trigger] fields[i]).contains(name),
        field_synonyms(f).contains(name) <==> f.synonym_maps.contains(name) || fields_synonyms(
            f.subfields,
        ).contains(name),
{
    lemma_fields_synonyms(fields, name);
    let own = f.synonym_maps;
    let inside = fields_synonyms(f.subfields);
    let all = field_synonyms(f);
    assert(all == own + inside);
    if own.contains(name) {
        let j = choose|j: int| 0 <= j < own.len() && own[j] == name;
        assert(all[j] == name);
    }
    if inside.contains(name) {
        let j = choose|j: int| 0 <= j < inside.len() && inside[j] == name;
        assert(all[own.len() as int + j] == name);
    }
    if all.contains(name) {
        let j = choose|j: int| 0 <= j < all.len() && all[j] == name;
        if j < own.len() {
            assert(own[j] == name);
        } else {
            assert(inside[j - own.len()] == name);
        }
    }
}

} // verus!
