//! Index definitions.
use crate::json::{
    Json, JsonV, array_of, group_json, member, member_array, member_or, nonempty_str,
    nonempty_str_of, opt_owned, opt_value, values,
};
use crate::semantic::config::{SemanticConfig, SemanticConfigurationV, semantic_of};
use crate::storage::definition::{
    FieldDefinition, FieldV, Suggester, SuggesterV, field_by_path, field_named, field_views,
    fields_of, find_by_path, find_named, get_strings, group_fields, lemma_suggester_views_push,
    opt_field, strings_member, suggester_of, suggester_views,
};
use crate::text::{clone_texts, lemma_texts_push, same_text, texts};
use crate::text_set::{law_sorted_texts, sort_texts, sorted_texts, strictly_sorted};
use vstd::prelude::*;

verus! {

/// An index definition (schema).
#[derive(Debug, PartialEq)]
pub struct IndexDefinition {
    pub name: String,
    pub fields: Vec<FieldDefinition>,
    /// Suggesters declared on the index; used by the autocomplete and suggest
    /// operations.
    pub suggesters: Vec<Suggester>,
    /// The raw vector search object, when present.
    pub vector_search: Option<Json>,
    /// The names of the synonym maps associated with the index.
    pub synonym_maps: Vec<String>,
    /// The semantic configurations, when present.
    pub semantic: Option<SemanticConfig>,
    /// The raw JSON index definition, preserved for echo in responses.
    pub raw: Json,
}

/// The mathematical value of an [`IndexDefinition`].
pub struct IndexV {
    pub name: Seq<char>,
    pub fields: Seq<FieldV>,
    pub suggesters: Seq<SuggesterV>,
    pub vector_search: Option<JsonV>,
    pub synonym_maps: Seq<Seq<char>>,
    pub semantic: Option<Seq<SemanticConfigurationV>>,
    pub raw: JsonV,
}

pub open spec fn opt_semantic(o: Option<SemanticConfig>) -> Option<Seq<SemanticConfigurationV>> {
    match o {
        Some(c) => Some(c@),
        None => None,
    }
}

impl View for IndexDefinition {
    type V = IndexV;

    open spec fn view(&self) -> IndexV {
        IndexV {
            name: self.name@,
            fields: field_views(self.fields@),
            suggesters: suggester_views(self.suggesters@),
            vector_search: opt_owned(self.vector_search),
            synonym_maps: texts(self.synonym_maps@),
            semantic: opt_semantic(self.semantic),
            raw: self.raw@,
        }
    }
}

pub open spec fn opt_index(o: Option<IndexDefinition>) -> Option<IndexV> {
    match o {
        Some(d) => Some(d@),
        None => None,
    }
}

/// The synonym maps that a field names, and then those that its subfields do.
pub open spec fn field_synonyms(f: FieldV) -> Seq<Seq<char>>
    decreases f,
{
    f.synonym_maps + fields_synonyms(f.subfields)
}

pub open spec fn fields_synonyms(fields: Seq<FieldV>) -> Seq<Seq<char>>
    decreases fields,
{
    if fields.len() == 0 {
        seq![]
    } else {
        fields_synonyms(fields.drop_last()) + field_synonyms(fields.last())
    }
}

pub open spec fn suggesters_of(items: Seq<JsonV>, i: int, done: Seq<SuggesterV>) -> Result<
    Seq<SuggesterV>,
    Seq<char>,
>
    decreases items.len() - i,
{
    if i >= items.len() {
        Ok(done)
    } else {
        match suggester_of(items[i]) {
            Err(e) => Err(e),
            Ok(s) => suggesters_of(items, i + 1, done.push(s)),
        }
    }
}

pub open spec fn suggesters_member(v: Option<JsonV>) -> Result<Seq<SuggesterV>, Seq<char>> {
    match array_of(v) {
        Some(items) => suggesters_of(items, 0, seq![]),
        None => Ok(seq![]),
    }
}

pub open spec fn semantic_member(v: Option<JsonV>, fields: Seq<FieldV>) -> Result<
    Option<Seq<SemanticConfigurationV>>,
    Seq<char>,
> {
    match v {
        None => Ok(None),
        Some(JsonV::Null) => Ok(None),
        Some(raw) => match semantic_of(raw, fields) {
            Ok(list) => Ok(Some(list)),
            Err(e) => Err(e),
        },
    }
}

/// The index definition that a JSON value writes, or what is wrong with it.
pub open spec fn index_of(raw: JsonV) -> Result<IndexV, Seq<char>> {
    match raw {
        JsonV::Object(m) => match nonempty_str_of(member(m, "name"@)) {
            None => Err("index is missing a non-empty \"name\""@),
            Some(name) => match array_of(member(m, "fields"@)) {
                None => Err("index is missing a \"fields\" array"@),
                Some(items) => if items.len() == 0 {
                    Err("index must define at least one field"@)
                } else {
                    match fields_of(items, 0, seq![]) {
                        Err(e) => Err(e),
                        Ok(fields) => match suggesters_member(member(m, "suggesters"@)) {
                            Err(e) => Err(e),
                            Ok(suggesters) => match semantic_member(
                                member(m, "semantic"@),
                                fields,
                            ) {
                                Err(e) => Err(e),
                                Ok(semantic) => Ok(
                                    IndexV {
                                        name,
                                        fields,
                                        suggesters,
                                        vector_search: member_or(
                                            m,
                                            "vectorSearch"@,
                                            "vector_search"@,
                                        ),
                                        synonym_maps: sorted_texts(
                                            strings_member(member(m, "synonymMaps"@))
                                                + fields_synonyms(fields),
                                        ),
                                        semantic,
                                        raw,
                                    },
                                ),
                            },
                        },
                    }
                },
            },
        },
        _ => Err("index definition must be a JSON object"@),
    }
}

pub open spec fn index_result(r: Result<IndexDefinition, String>) -> Result<IndexV, Seq<char>> {
    match r {
        Ok(d) => Ok(d@),
        Err(m) => Err(m@),
    }
}

/// The first of the suggesters from `i` on with a name.
pub open spec fn suggester_named(list: Seq<SuggesterV>, name: Seq<char>, i: int) -> Option<
    SuggesterV,
>
    decreases list.len() - i,
{
    if i >= list.len() {
        None
    } else if list[i].name == name {
        Some(list[i])
    } else {
        suggester_named(list, name, i + 1)
    }
}

/// The first of the fields from `i` on that is the key.
pub open spec fn key_of(fields: Seq<FieldV>, i: int) -> Option<FieldV>
    decreases fields.len() - i,
{
    if i >= fields.len() {
        None
    } else if fields[i].is_key {
        Some(fields[i])
    } else {
        key_of(fields, i + 1)
    }
}

/// Collects per-field `synonymMaps` (including nested complex subfields)
/// into `out`.
fn collect_field_synonym_maps(field: &FieldDefinition, out: &mut Vec<String>)
    ensures
        texts(final(out)@) == texts(old(out)@) + field_synonyms(field@),
    decreases field,
{
    broadcast use {group_fields, lemma_texts_push};

    let ghost start = texts(out@);
    let ghost own = texts(field.synonym_maps@);
    let mut i: usize = 0;
    assert(start + own.take(0) =~= start);
    while i < field.synonym_maps.len()
        invariant
            own == texts(field.synonym_maps@),
            i <= field.synonym_maps@.len(),
            texts(out@) == start + own.take(i as int),
        decreases field.synonym_maps@.len() - i,
    {
        let ghost before = texts(out@);
        let name = field.synonym_maps[i].clone();
        out.push(name);
        assert(texts(out@) == before.push(name@));
        assert(own[i as int] == name@);
        i += 1;
        assert(texts(out@) =~= start + own.take(i as int));
    }
    assert(own.take(own.len() as int) =~= own);
    let ghost mid = start + own;
    let ghost all = field_views(field.subfields@);
    assert(all == field@.subfields);
    let mut k: usize = 0;
    assert(all.take(0) =~= seq![]);
    assert(mid + fields_synonyms(all.take(0)) =~= mid);
    while k < field.subfields.len()
        invariant
            all == field_views(field.subfields@),
            k <= field.subfields@.len(),
            texts(out@) == mid + fields_synonyms(all.take(k as int)),
        decreases field.subfields@.len() - k,
    {
        proof {
            let t = all.take(k + 1);
            assert(t.drop_last() =~= all.take(k as int));
            assert(t.last() == field.subfields@[k as int]@);
        }
        collect_field_synonym_maps(&field.subfields[k], out);
        k += 1;
        assert(texts(out@) =~= mid + fields_synonyms(all.take(k as int)));
    }
    assert(all.take(all.len() as int) =~= all);
    assert(texts(out@) =~= start + field_synonyms(field@));
}

impl IndexDefinition {
    /// Parses an index definition from its raw JSON representation.
    ///
    /// Returns an error string if the value is not an object, is missing a
    /// non-empty `name` or a non-empty `fields` array, or any field is invalid.
    pub fn from_json(raw: Json) -> (r: Result<IndexDefinition, String>)
        ensures
            index_result(r) == index_of(raw@),
    {
        broadcast use {group_json, group_fields, lemma_suggester_views_push, lemma_texts_push};

        let obj = match raw.as_object() {
            Some(obj) => obj,
            None => {
                return Err("index definition must be a JSON object".to_owned());
            },
        };
        let name = match nonempty_str(obj.get("name")) {
            Some(name) => name.to_owned(),
            None => {
                return Err("index is missing a non-empty \"name\"".to_owned());
            },
        };
        let items = match member_array(obj.get("fields")) {
            Some(items) => items,
            None => {
                return Err("index is missing a \"fields\" array".to_owned());
            },
        };
        if items.len() == 0 {
            return Err("index must define at least one field".to_owned());
        }
        let fields = read_fields(items)?;
        let suggesters = read_suggesters(obj.get("suggesters"))?;
        let vector_search = match obj.get_or("vectorSearch", "vector_search") {
            Some(v) => Some(v.duplicate()),
            None => None,
        };
        let mut maps = get_strings(obj.get("synonymMaps"));
        let ghost own = texts(maps@);
        let ghost fs = field_views(fields@);
        let mut i: usize = 0;
        assert(fs.take(0) =~= seq![]);
        assert(own + fields_synonyms(fs.take(0)) =~= own);
        while i < fields.len()
            invariant
                fs == field_views(fields@),
                i <= fields@.len(),
                texts(maps@) == own + fields_synonyms(fs.take(i as int)),
            decreases fields@.len() - i,
        {
            proof {
                let t = fs.take(i + 1);
                assert(t.drop_last() =~= fs.take(i as int));
                assert(t.last() == fields@[i as int]@);
            }
            collect_field_synonym_maps(&fields[i], &mut maps);
            i += 1;
            assert(texts(maps@) =~= own + fields_synonyms(fs.take(i as int)));
        }
        assert(fs.take(fs.len() as int) =~= fs);
        let synonym_maps = sort_texts(&maps);
        let semantic = match obj.get("semantic") {
            None => None,
            Some(Json::Null) => None,
            Some(block) => SemanticConfig::from_json(block, &fields)?,
        };
        let copy = raw.duplicate();
        Ok(
            IndexDefinition {
                name,
                fields,
                suggesters,
                vector_search,
                synonym_maps,
                semantic,
                raw: copy,
            },
        )
    }

    pub fn key_field(&self) -> (r: Option<&FieldDefinition>)
        ensures
            opt_field(r) == key_of(self@.fields, 0),
    {
        let mut i: usize = 0;
        while i < self.fields.len()
            invariant
                i <= self.fields@.len(),
                key_of(self@.fields, 0) == key_of(self@.fields, i as int),
            decreases self.fields@.len() - i,
        {
            assert(self@.fields[i as int] == self.fields@[i as int]@);
            if self.fields[i].is_key {
                return Some(&self.fields[i]);
            }
            i += 1;
        }
        None
    }

    pub fn field(&self, name: &str) -> (r: Option<&FieldDefinition>)
        ensures
            opt_field(r) == field_named(self@.fields, name@, 0),
    {
        find_named(&self.fields, name)
    }

    pub fn suggester(&self, name: &str) -> (r: Option<&Suggester>)
        ensures
            match r {
                Some(s) => suggester_named(self@.suggesters, name@, 0) == Some(s@),
                None => suggester_named(self@.suggesters, name@, 0) is None,
            },
    {
        let mut i: usize = 0;
        while i < self.suggesters.len()
            invariant
                i <= self.suggesters@.len(),
                suggester_named(self@.suggesters, name@, 0) == suggester_named(
                    self@.suggesters,
                    name@,
                    i as int,
                ),
            decreases self.suggesters@.len() - i,
        {
            assert(self@.suggesters[i as int] == self.suggesters@[i as int]@);
            if same_text(self.suggesters[i].name.as_str(), name) {
                return Some(&self.suggesters[i]);
            }
            i += 1;
        }
        None
    }

    /// Resolves a field path (`Address/StateProvince`) through complex-type
    /// subfields. A plain name resolves exactly like [`Self::field`].
    pub fn field_path(&self, path: &str) -> (r: Option<&FieldDefinition>)
        ensures
            opt_field(r) == field_by_path(self@.fields, path@),
    {
        find_by_path(&self.fields, path)
    }

    pub fn duplicate(&self) -> (r: IndexDefinition)
        ensures
            r@ == self@,
    {
        broadcast use {group_fields, lemma_suggester_views_push};

        let mut fields: Vec<FieldDefinition> = Vec::new();
        let mut i: usize = 0;
        while i < self.fields.len()
            invariant
                i <= self.fields@.len(),
                field_views(fields@) == self@.fields.take(i as int),
            decreases self.fields@.len() - i,
        {
            let ghost before = field_views(fields@);
            let f = self.fields[i].duplicate();
            fields.push(f);
            assert(field_views(fields@) == before.push(f@));
            assert(self@.fields[i as int] == f@);
            i += 1;
            assert(field_views(fields@) =~= self@.fields.take(i as int));
        }
        assert(self@.fields.take(self@.fields.len() as int) =~= self@.fields);
        let mut suggesters: Vec<Suggester> = Vec::new();
        let mut k: usize = 0;
        while k < self.suggesters.len()
            invariant
                k <= self.suggesters@.len(),
                suggester_views(suggesters@) == self@.suggesters.take(k as int),
            decreases self.suggesters@.len() - k,
        {
            let ghost before = suggester_views(suggesters@);
            let s = self.suggesters[k].duplicate();
            suggesters.push(s);
            assert(suggester_views(suggesters@) == before.push(s@));
            assert(self@.suggesters[k as int] == s@);
            k += 1;
            assert(suggester_views(suggesters@) =~= self@.suggesters.take(k as int));
        }
        assert(self@.suggesters.take(self@.suggesters.len() as int) =~= self@.suggesters);
        IndexDefinition {
            name: self.name.clone(),
            fields,
            suggesters,
            vector_search: match &self.vector_search {
                Some(v) => Some(v.duplicate()),
                None => None,
            },
            synonym_maps: clone_texts(&self.synonym_maps),
            semantic: match &self.semantic {
                Some(c) => Some(c.duplicate()),
                None => None,
            },
            raw: self.raw.duplicate(),
        }
    }
}

fn read_fields(items: &Vec<Json>) -> (r: Result<Vec<FieldDefinition>, String>)
    ensures
        match r {
            Ok(fields) => fields_of(values(items@), 0, seq![]) == Ok::<_, Seq<char>>(
                field_views(fields@),
            ),
            Err(m) => fields_of(values(items@), 0, seq![]) == Err::<Seq<FieldV>, _>(m@),
        },
{
    broadcast use group_fields;

    let ghost all = values(items@);
    let mut fields: Vec<FieldDefinition> = Vec::new();
    let mut i: usize = 0;
    assert(field_views(fields@) =~= seq![]);
    while i < items.len()
        invariant
            all == values(items@),
            i <= items@.len(),
            fields_of(all, 0, seq![]) == fields_of(all, i as int, field_views(fields@)),
        decreases items@.len() - i,
    {
        assert(all[i as int] == items@[i as int]@);
        let field = FieldDefinition::from_json(items[i].duplicate())?;
        let ghost before = field_views(fields@);
        fields.push(field);
        assert(field_views(fields@) == before.push(field@));
        i += 1;
    }
    Ok(fields)
}

fn read_suggesters(v: Option<&Json>) -> (r: Result<Vec<Suggester>, String>)
    ensures
        match r {
            Ok(list) => suggesters_member(opt_value(v)) == Ok::<_, Seq<char>>(
                suggester_views(list@),
            ),
            Err(m) => suggesters_member(opt_value(v)) == Err::<Seq<SuggesterV>, _>(m@),
        },
{
    broadcast use lemma_suggester_views_push;

    let mut suggesters: Vec<Suggester> = Vec::new();
    assert(suggester_views(suggesters@) =~= seq![]);
    if let Some(items) = member_array(v) {
        let ghost all = values(items@);
        let mut i: usize = 0;
        while i < items.len()
            invariant
                all == values(items@),
                array_of(opt_value(v)) == Some(all),
                i <= items@.len(),
                suggesters_of(all, 0, seq![]) == suggesters_of(
                    all,
                    i as int,
                    suggester_views(suggesters@),
                ),
            decreases items@.len() - i,
        {
            assert(all[i as int] == items@[i as int]@);
            let s = Suggester::from_json(&items[i])?;
            let ghost before = suggester_views(suggesters@);
            suggesters.push(s);
            assert(suggester_views(suggesters@) == before.push(s@));
            i += 1;
        }
    }
    Ok(suggesters)
}

/// The synonym maps of an index stand in order, each once.
pub proof fn law_index_synonym_maps_sorted(raw: JsonV)
    requires
        index_of(raw) is Ok,
    ensures
        strictly_sorted(index_of(raw)->Ok_0.synonym_maps),
{
    law_sorted_texts(
        strings_member(member(raw->Object_0, "synonymMaps"@)) + fields_synonyms(
            index_of(raw)->Ok_0.fields,
        ),
        seq![],
    );
}

/// An index keeps the JSON it was defined with, and has a name and a field.
pub proof fn law_index_echoes_its_definition(raw: JsonV)
    requires
        index_of(raw) is Ok,
    ensures
        index_of(raw)->Ok_0.raw == raw,
        index_of(raw)->Ok_0.name.len() > 0,
{
}

} // verus!
