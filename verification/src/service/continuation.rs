//! Opaque continuation tokens for paging.
use crate::encoding::{
    base64_standard, base64_url_safe, decode_standard, decode_url_safe, encode_url_safe,
    read_bytes, text_from_utf8, utf8_problem,
};
use crate::json::{JsonV, Number, json_text, keys_sorted};
use crate::text::{cat2, cat3, opt_text, same_text, text_less};
use vstd::prelude::*;
use vstd::utf8::{decode_utf8, encode_utf8, encode_utf8_decode_utf8, encode_utf8_valid_utf8, valid_utf8};

verus! {

/// A JSON value, by what a token can hold: null, a string, an unsigned integer, or
/// something else.
#[derive(Debug, PartialEq, Eq)]
pub enum TokenValue {
    Null,
    Text(String),
    Unsigned(u64),
    Other,
}

/// The mathematical value of a [`TokenValue`].
pub enum TokenValueV {
    Null,
    Text(Seq<char>),
    Unsigned(u64),
    Other,
}

impl View for TokenValue {
    type V = TokenValueV;

    open spec fn view(&self) -> TokenValueV {
        match self {
            TokenValue::Null => TokenValueV::Null,
            TokenValue::Text(s) => TokenValueV::Text(s@),
            TokenValue::Unsigned(n) => TokenValueV::Unsigned(*n),
            TokenValue::Other => TokenValueV::Other,
        }
    }
}

impl TokenValue {
    fn duplicate(&self) -> (r: TokenValue)
        ensures
            r@ == self@,
    {
        match self {
            TokenValue::Null => TokenValue::Null,
            TokenValue::Text(s) => TokenValue::Text(s.clone()),
            TokenValue::Unsigned(n) => TokenValue::Unsigned(*n),
            TokenValue::Other => TokenValue::Other,
        }
    }
}

/// What a JSON text writes: an object with its members in order, repeated keys
/// among them, an array with its items, or something else.
#[derive(Debug, PartialEq, Eq)]
pub enum TokenShape {
    Object(Vec<(String, TokenValue)>),
    Array(Vec<TokenValue>),
    Other,
}

/// The mathematical value of a [`TokenShape`].
pub enum TokenShapeV {
    Object(Seq<(Seq<char>, TokenValueV)>),
    Array(Seq<TokenValueV>),
    Other,
}

pub open spec fn member_pairs(m: Seq<(String, TokenValue)>) -> Seq<(Seq<char>, TokenValueV)> {
    m.map_values(|e: (String, TokenValue)| (e.0@, e.1@))
}

pub open spec fn value_views(v: Seq<TokenValue>) -> Seq<TokenValueV> {
    v.map_values(|e: TokenValue| e@)
}

impl View for TokenShape {
    type V = TokenShapeV;

    open spec fn view(&self) -> TokenShapeV {
        match self {
            TokenShape::Object(m) => TokenShapeV::Object(member_pairs(m@)),
            TokenShape::Array(v) => TokenShapeV::Array(value_views(v@)),
            TokenShape::Other => TokenShapeV::Other,
        }
    }
}

/// What a JSON text writes, or what is wrong with the text.
pub uninterp spec fn json_shape(text: Seq<char>) -> Result<TokenShapeV, Seq<char>>;

pub open spec fn shape_result(r: Result<TokenShape, String>) -> Result<TokenShapeV, Seq<char>> {
    match r {
        Ok(v) => Ok(v@),
        Err(m) => Err(m@),
    }
}

/// `serde_json::from_str` into a `tantivy::schema::OwnedValue`, which keeps the
/// members of an object as they come: values that are null, a string, or a number
/// read as `u64` are told apart from all others. A text is also refused where its
/// values nest deeper than `serde_json` recurses or a number is out of range, in a
/// member that is of no interest too. An error is given by its `Display` text.
#[verifier::external_body]
fn read_shape(text: &str) -> (r: Result<TokenShape, String>)
    ensures
        shape_result(r) == json_shape(text@),
{
    let value = |v: tantivy::schema::OwnedValue| match v {
        tantivy::schema::OwnedValue::Null => TokenValue::Null,
        tantivy::schema::OwnedValue::Str(s) => TokenValue::Text(s),
        tantivy::schema::OwnedValue::U64(n) => TokenValue::Unsigned(n),
        _ => TokenValue::Other,
    };
    match serde_json::from_str(text) {
        Ok(tantivy::schema::OwnedValue::Object(m)) => Ok(TokenShape::Object(m.into_iter().map(|(k, v)| (k, value(v))).collect())),
        Ok(tantivy::schema::OwnedValue::Array(v)) => Ok(TokenShape::Array(v.into_iter().map(value).collect())),
        Ok(_) => Ok(TokenShape::Other),
        Err(e) => Err(e.to_string()),
    }
}

pub open spec fn value_json(v: TokenValueV) -> JsonV {
    match v {
        TokenValueV::Text(s) => JsonV::String(s),
        TokenValueV::Unsigned(n) => JsonV::Number(Number::PosInt(n)),
        _ => JsonV::Null,
    }
}

pub open spec fn pairs_json(m: Seq<(Seq<char>, TokenValueV)>) -> Seq<(Seq<char>, JsonV)> {
    m.map_values(|e: (Seq<char>, TokenValueV)| (e.0, value_json(e.1)))
}

/// Whether members can be written.
pub open spec fn writable(m: Seq<(Seq<char>, TokenValueV)>) -> bool {
    keys_sorted(pairs_json(m)) && forall|i: int| 0 <= i < m.len() ==> !((#[trigger] m[i]).1 is Other)
}

/// What is read back of written members.
pub open spec fn written(m: Seq<(Seq<char>, TokenValueV)>) -> Result<TokenShapeV, Seq<char>> {
    Ok(TokenShapeV::Object(m))
}

/// The `Display` form of a `serde_json::Value::Object` with the given members,
/// whose keys are sorted: the compact JSON text of the object. Reading the text
/// with `serde_json::from_str` gives the members back.
#[verifier::external_body]
fn write_members(pairs: Vec<(String, TokenValue)>) -> (r: String)
    requires
        writable(member_pairs(pairs@)),
    ensures
        r@ == json_text(JsonV::Object(pairs_json(member_pairs(pairs@)))),
        json_shape(r@) == written(member_pairs(pairs@)),
{
    let values = pairs.into_iter().map(|(k, v)| match v {
        TokenValue::Text(s) => (k, serde_json::Value::from(s)),
        TokenValue::Unsigned(n) => (k, serde_json::Value::from(n)),
        _ => (k, serde_json::Value::Null),
    });
    serde_json::Value::Object(values.collect()).to_string()
}

/// A continuation token: the opaque URL-safe `base64(json{filter, orderby,
/// skip, vector_query_hash?})` value carried in `@odata.nextLink` and returned
/// by the client in the `continuation` request parameter. URL-safe encoding
/// keeps the token intact inside query strings (`+`/`/` would otherwise be
/// mangled); decoding still accepts the legacy standard alphabet. Tokens remain
/// valid across document mutations (results may shift). `vector_query_hash`
/// binds the token to the identity of the vector queries when vector search is
/// active.
#[derive(Debug, PartialEq, Eq)]
pub struct ContinuationToken {
    pub filter: Option<String>,
    pub orderby: Option<String>,
    pub skip: u64,
    pub vector_query_hash: Option<u64>,
}

/// The mathematical value of a [`ContinuationToken`].
pub struct ContinuationV {
    pub filter: Option<Seq<char>>,
    pub orderby: Option<Seq<char>>,
    pub skip: u64,
    pub vector_query_hash: Option<u64>,
}

impl View for ContinuationToken {
    type V = ContinuationV;

    open spec fn view(&self) -> ContinuationV {
        ContinuationV {
            filter: opt_text(self.filter),
            orderby: opt_text(self.orderby),
            skip: self.skip,
            vector_query_hash: self.vector_query_hash,
        }
    }
}

pub open spec fn token_result(r: Result<ContinuationToken, String>) -> Result<ContinuationV, Seq<char>> {
    match r {
        Ok(t) => Ok(t@),
        Err(m) => Err(m@),
    }
}

pub open spec fn text_or_null(o: Option<Seq<char>>) -> TokenValueV {
    match o {
        Some(s) => TokenValueV::Text(s),
        None => TokenValueV::Null,
    }
}

pub open spec fn number_or_null(o: Option<u64>) -> TokenValueV {
    match o {
        Some(n) => TokenValueV::Unsigned(n),
        None => TokenValueV::Null,
    }
}

/// The members of a token.
pub open spec fn token_pairs(t: ContinuationV) -> Seq<(Seq<char>, TokenValueV)> {
    seq![
        ("filter"@, text_or_null(t.filter)),
        ("orderby"@, text_or_null(t.orderby)),
        ("skip"@, TokenValueV::Unsigned(t.skip)),
        ("vector_query_hash"@, number_or_null(t.vector_query_hash)),
    ]
}

/// The JSON text of a token.
pub open spec fn token_json(t: ContinuationV) -> Seq<char> {
    json_text(JsonV::Object(pairs_json(token_pairs(t))))
}

/// An optional text of a token; a missing one is none.
pub open spec fn token_text(v: Option<TokenValueV>, key: Seq<char>) -> Result<
    Option<Seq<char>>,
    Seq<char>,
> {
    match v {
        None => Ok(None),
        Some(TokenValueV::Null) => Ok(None),
        Some(TokenValueV::Text(s)) => Ok(Some(s)),
        Some(_) => Err("field `"@ + key + "` is not a string"@),
    }
}

/// An optional number of a token; a missing one is none.
pub open spec fn token_number(v: Option<TokenValueV>, key: Seq<char>) -> Result<
    Option<u64>,
    Seq<char>,
> {
    match v {
        None => Ok(None),
        Some(TokenValueV::Null) => Ok(None),
        Some(TokenValueV::Unsigned(n)) => Ok(Some(n)),
        Some(_) => Err("field `"@ + key + "` is not an unsigned integer"@),
    }
}

/// The token with the given fields. Only `skip` is needed.
pub open spec fn token_of_fields(
    filter: Option<TokenValueV>,
    orderby: Option<TokenValueV>,
    skip: Option<TokenValueV>,
    hash: Option<TokenValueV>,
) -> Result<ContinuationV, Seq<char>> {
    match (token_text(filter, "filter"@), token_text(orderby, "orderby"@)) {
        (Err(e), _) => Err(e),
        (_, Err(e)) => Err(e),
        (Ok(filter), Ok(orderby)) => match (
            token_number(skip, "skip"@),
            token_number(hash, "vector_query_hash"@),
        ) {
            (Err(e), _) => Err(e),
            (Ok(None), _) => Err("missing field `skip`"@),
            (_, Err(e)) => Err(e),
            (Ok(Some(skip)), Ok(vector_query_hash)) => Ok(
                ContinuationV { filter, orderby, skip, vector_query_hash },
            ),
        },
    }
}

/// The values that members have under a key.
pub open spec fn values_under(m: Seq<(Seq<char>, TokenValueV)>, key: Seq<char>) -> Seq<TokenValueV>
    decreases m.len(),
{
    if m.len() == 0 {
        seq![]
    } else {
        let rest = values_under(m.drop_last(), key);
        if m.last().0 == key {
            rest.push(m.last().1)
        } else {
            rest
        }
    }
}

/// The value that members have under a key, which must not be repeated.
pub open spec fn field_value(m: Seq<(Seq<char>, TokenValueV)>, key: Seq<char>) -> Result<
    Option<TokenValueV>,
    Seq<char>,
> {
    let found = values_under(m, key);
    if found.len() == 0 {
        Ok(None)
    } else if found.len() == 1 {
        Ok(Some(found[0]))
    } else {
        Err("duplicate field `"@ + key + "`"@)
    }
}

/// The token that members make. Other members than its fields are passed over.
pub open spec fn token_of_members(m: Seq<(Seq<char>, TokenValueV)>) -> Result<
    ContinuationV,
    Seq<char>,
> {
    match (field_value(m, "filter"@), field_value(m, "orderby"@)) {
        (Err(e), _) => Err(e),
        (_, Err(e)) => Err(e),
        (Ok(filter), Ok(orderby)) => match (
            field_value(m, "skip"@),
            field_value(m, "vector_query_hash"@),
        ) {
            (Err(e), _) => Err(e),
            (_, Err(e)) => Err(e),
            (Ok(skip), Ok(hash)) => token_of_fields(filter, orderby, skip, hash),
        },
    }
}

/// The token that a JSON text writes: as an object, or as an array of its fields
/// in order, of which the last may be left out.
pub open spec fn token_of_text(text: Seq<char>) -> Result<ContinuationV, Seq<char>> {
    match json_shape(text) {
        Err(e) => Err(e),
        Ok(TokenShapeV::Object(m)) => token_of_members(m),
        Ok(TokenShapeV::Array(v)) => if v.len() == 3 {
            token_of_fields(Some(v[0]), Some(v[1]), Some(v[2]), None)
        } else if v.len() == 4 {
            token_of_fields(Some(v[0]), Some(v[1]), Some(v[2]), Some(v[3]))
        } else {
            Err("a continuation token has 4 fields"@)
        },
        Ok(TokenShapeV::Other) => Err("a continuation token is an object"@),
    }
}

/// The bytes of a token: in the URL-safe alphabet, or else in the standard one.
pub open spec fn token_bytes(raw: Seq<char>) -> Result<Seq<u8>, Seq<char>> {
    match base64_url_safe(raw) {
        Ok(bytes) => Ok(bytes),
        Err(_) => base64_standard(raw),
    }
}

/// The token that was encoded as `raw`.
pub open spec fn decoded_token(raw: Seq<char>) -> Result<ContinuationV, Seq<char>> {
    match token_bytes(raw) {
        Err(e) => Err("continuation token is not valid base64: "@ + e),
        Ok(bytes) => if !valid_utf8(bytes) {
            Err("continuation token is not valid UTF-8: "@ + utf8_problem(bytes))
        } else {
            match token_of_text(decode_utf8(bytes)) {
                Err(e) => Err("continuation token is not valid JSON: "@ + e),
                Ok(t) => Ok(t),
            }
        },
    }
}

/// Whether a text decodes to a token.
pub open spec fn decodes_to(raw: Seq<char>, t: ContinuationV) -> bool {
    decoded_token(raw) is Ok && decoded_token(raw)->Ok_0 == t
}

pub open spec fn opt_text_result(r: Result<Option<String>, String>) -> Result<
    Option<Seq<char>>,
    Seq<char>,
> {
    match r {
        Ok(o) => Ok(opt_text(o)),
        Err(m) => Err(m@),
    }
}

pub open spec fn opt_number_result(r: Result<Option<u64>, String>) -> Result<
    Option<u64>,
    Seq<char>,
> {
    match r {
        Ok(o) => Ok(o),
        Err(m) => Err(m@),
    }
}

pub open spec fn opt_value_view(o: Option<TokenValue>) -> Option<TokenValueV> {
    match o {
        Some(v) => Some(v@),
        None => None,
    }
}

fn read_text(v: Option<TokenValue>, key: &str) -> (r: Result<Option<String>, String>)
    ensures
        opt_text_result(r) == token_text(opt_value_view(v), key@),
{
    match v {
        None => Ok(None),
        Some(TokenValue::Null) => Ok(None),
        Some(TokenValue::Text(s)) => Ok(Some(s)),
        Some(_) => Err(cat3("field `", key, "` is not a string")),
    }
}

fn read_number(v: Option<TokenValue>, key: &str) -> (r: Result<Option<u64>, String>)
    ensures
        opt_number_result(r) == token_number(opt_value_view(v), key@),
{
    match v {
        None => Ok(None),
        Some(TokenValue::Null) => Ok(None),
        Some(TokenValue::Unsigned(n)) => Ok(Some(n)),
        Some(_) => Err(cat3("field `", key, "` is not an unsigned integer")),
    }
}

fn read_fields(
    filter: Option<TokenValue>,
    orderby: Option<TokenValue>,
    skip: Option<TokenValue>,
    hash: Option<TokenValue>,
) -> (r: Result<ContinuationToken, String>)
    ensures
        token_result(r) == token_of_fields(
            opt_value_view(filter),
            opt_value_view(orderby),
            opt_value_view(skip),
            opt_value_view(hash),
        ),
{
    let filter = match read_text(filter, "filter") {
        Ok(o) => o,
        Err(e) => return Err(e),
    };
    let orderby = match read_text(orderby, "orderby") {
        Ok(o) => o,
        Err(e) => return Err(e),
    };
    let skip: u64 = match read_number(skip, "skip") {
        Ok(Some(n)) => n,
        Ok(None) => return Err("missing field `skip`".to_owned()),
        Err(e) => return Err(e),
    };
    match read_number(hash, "vector_query_hash") {
        Ok(vector_query_hash) => Ok(
            ContinuationToken { filter, orderby, skip, vector_query_hash },
        ),
        Err(e) => Err(e),
    }
}

fn find_field(m: &Vec<(String, TokenValue)>, key: &str) -> (r: Result<Option<TokenValue>, String>)
    ensures
        match r {
            Ok(o) => field_value(member_pairs(m@), key@) is Ok && field_value(
                member_pairs(m@),
                key@,
            )->Ok_0 == opt_value_view(o),
            Err(e) => field_value(member_pairs(m@), key@) is Err && field_value(
                member_pairs(m@),
                key@,
            )->Err_0 == e@,
        },
{
    let ghost all = member_pairs(m@);
    let mut found: Vec<TokenValue> = Vec::new();
    let mut i: usize = 0;
    assert(value_views(found@) =~= values_under(all.take(0), key@));
    while i < m.len()
        invariant
            all == member_pairs(m@),
            i <= m@.len(),
            value_views(found@) == values_under(all.take(i as int), key@),
        decreases m@.len() - i,
    {
        assert(all.take(i + 1).drop_last() =~= all.take(i as int));
        assert(all[i as int] == (m@[i as int].0@, m@[i as int].1@));
        if same_text(m[i].0.as_str(), key) {
            let ghost before = found@;
            let v = m[i].1.duplicate();
            found.push(v);
            assert(value_views(found@) =~= value_views(before).push(v@));
        }
        i += 1;
    }
    assert(all.take(i as int) =~= all);
    assert(value_views(found@).len() == found@.len());
    if found.len() == 0 {
        Ok(None)
    } else if found.len() == 1 {
        assert(value_views(found@)[0] == found@[0]@);
        Ok(Some(found[0].duplicate()))
    } else {
        Err(cat3("duplicate field `", key, "`"))
    }
}

fn read_token(text: &str) -> (r: Result<ContinuationToken, String>)
    ensures
        token_result(r) == token_of_text(text@),
{
    match read_shape(text) {
        Err(e) => Err(e),
        Ok(TokenShape::Object(m)) => {
            let filter = match find_field(&m, "filter") {
                Ok(v) => v,
                Err(e) => return Err(e),
            };
            let orderby = match find_field(&m, "orderby") {
                Ok(v) => v,
                Err(e) => return Err(e),
            };
            let skip = match find_field(&m, "skip") {
                Ok(v) => v,
                Err(e) => return Err(e),
            };
            let hash = match find_field(&m, "vector_query_hash") {
                Ok(v) => v,
                Err(e) => return Err(e),
            };
            read_fields(filter, orderby, skip, hash)
        },
        Ok(TokenShape::Array(v)) => {
            assert(value_views(v@).len() == v@.len());
            if v.len() != 3 && v.len() != 4 {
                return Err("a continuation token has 4 fields".to_owned());
            }
            assert(value_views(v@)[0] == v@[0]@);
            assert(value_views(v@)[1] == v@[1]@);
            assert(value_views(v@)[2] == v@[2]@);
            let hash = if v.len() == 4 {
                assert(value_views(v@)[3] == v@[3]@);
                Some(v[3].duplicate())
            } else {
                None
            };
            read_fields(
                Some(v[0].duplicate()),
                Some(v[1].duplicate()),
                Some(v[2].duplicate()),
                hash,
            )
        },
        Ok(TokenShape::Other) => Err("a continuation token is an object".to_owned()),
    }
}

fn text_value(o: &Option<String>) -> (r: TokenValue)
    ensures
        r@ == text_or_null(opt_text(*o)),
{
    match o {
        Some(s) => TokenValue::Text(s.clone()),
        None => TokenValue::Null,
    }
}

proof fn lemma_token_pairs(t: ContinuationV)
    ensures
        writable(token_pairs(t)),
        token_of_members(token_pairs(t)) is Ok,
        token_of_members(token_pairs(t))->Ok_0 == t,
{
    reveal_strlit("filter");
    reveal_strlit("orderby");
    reveal_strlit("skip");
    reveal_strlit("vector_query_hash");
    assert("filter"@[0] == 'f' && "orderby"@[0] == 'o' && "skip"@[0] == 's'
        && "vector_query_hash"@[0] == 'v');
    assert('f' < 'o' && 'o' < 's' && 's' < 'v');
    assert(text_less("filter"@, "orderby"@));
    assert(text_less("filter"@, "skip"@));
    assert(text_less("filter"@, "vector_query_hash"@));
    assert(text_less("orderby"@, "skip"@));
    assert(text_less("orderby"@, "vector_query_hash"@));
    assert(text_less("skip"@, "vector_query_hash"@));
    let m = token_pairs(t);
    assert(m.drop_last() =~= m.take(3));
    assert(m.take(3).drop_last() =~= m.take(2));
    assert(m.take(2).drop_last() =~= m.take(1));
    assert(m.take(1).drop_last() =~= m.take(0));
    assert(forall|key: Seq<char>| values_under(m.take(0), key) =~= seq![]);
    reveal_with_fuel(values_under, 5);
    assert(values_under(m, "filter"@) =~= seq![text_or_null(t.filter)]);
    assert(values_under(m, "orderby"@) =~= seq![text_or_null(t.orderby)]);
    assert(values_under(m, "skip"@) =~= seq![TokenValueV::Unsigned(t.skip)]);
    assert(values_under(m, "vector_query_hash"@) =~= seq![number_or_null(t.vector_query_hash)]);
}

impl ContinuationToken {
    /// Encodes the token: the URL-safe base64 form of its JSON text, from which
    /// the token can be read back. It can be read back from the standard form of
    /// that text, too.
    pub fn encode(&self) -> (r: String)
        ensures
            base64_url_safe(r@) == read_bytes(encode_utf8(token_json(self@))),
            forall|i: int| 0 <= i < r@.len() ==> #[trigger] r@[i] != '+' && r@[i] != '/',
            decodes_to(r@, self@),
            forall|s: Seq<char>| #[trigger]
                base64_standard(s) == read_bytes(encode_utf8(token_json(self@))) ==> decodes_to(
                    s,
                    self@,
                ),
    {
        let hash = match self.vector_query_hash {
            Some(n) => TokenValue::Unsigned(n),
            None => TokenValue::Null,
        };
        let pairs: Vec<(String, TokenValue)> = vec![
            ("filter".to_owned(), text_value(&self.filter)),
            ("orderby".to_owned(), text_value(&self.orderby)),
            ("skip".to_owned(), TokenValue::Unsigned(self.skip)),
            ("vector_query_hash".to_owned(), hash),
        ];
        assert(member_pairs(pairs@) =~= token_pairs(self@));
        proof {
            lemma_token_pairs(self@);
        }
        let text = write_members(pairs);
        let r = encode_url_safe(text.as_str());
        proof {
            encode_utf8_valid_utf8(text@);
            encode_utf8_decode_utf8(text@);
        }
        r
    }

    /// Decodes a token; an error says why the token is not valid base64 JSON
    /// with the expected shape.
    pub fn decode(raw: &str) -> (r: Result<ContinuationToken, String>)
        ensures
            token_result(r) == decoded_token(raw@),
    {
        let bytes = match decode_url_safe(raw) {
            Ok(b) => b,
            Err(_) => match decode_standard(raw) {
                Ok(b) => b,
                Err(e) => return Err(cat2("continuation token is not valid base64: ", e.as_str())),
            },
        };
        let text = match text_from_utf8(bytes) {
            Ok(s) => s,
            Err(e) => return Err(cat2("continuation token is not valid UTF-8: ", e.as_str())),
        };
        match read_token(text.as_str()) {
            Ok(t) => Ok(t),
            Err(e) => Err(cat2("continuation token is not valid JSON: ", e.as_str())),
        }
    }
}

} // verus!
