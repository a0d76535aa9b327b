//! JSON documents: what the service answers, and what it is sent.
use vstd::prelude::*;
use crate::text::{self, text_eq};

verus! {

/// A JSON document as a mathematical value. The members of an object stand in
/// the order in which the object is walked.
pub enum Doc {
    Null,
    Bool(bool),
    /// An integer from zero on.
    Unsigned(u64),
    /// An integer below zero.
    Negative(i64),
    /// Any other number, by the way it is written.
    Fraction(Seq<char>),
    Text(Seq<char>),
    Array(Seq<Doc>),
    Object(Seq<(Seq<char>, Doc)>),
}

/// A JSON document that was read.
pub enum Json {
    Null,
    Bool(bool),
    Unsigned(u64),
    Negative(i64),
    Fraction(String),
    Text(String),
    Array(Vec<Json>),
    Object(Vec<(String, Json)>),
}

/// The document that a value in memory stands for.
pub open spec fn doc_of(j: Json) -> Doc
    decreases j,
{
    match j {
        Json::Null => Doc::Null,
        Json::Bool(b) => Doc::Bool(b),
        Json::Unsigned(n) => Doc::Unsigned(n),
        Json::Negative(n) => Doc::Negative(n),
        Json::Fraction(t) => Doc::Fraction(t@),
        Json::Text(t) => Doc::Text(t@),
        Json::Array(v) => Doc::Array(
            Seq::new(
                v@.len(),
                |i: int|
                    if 0 <= i < v@.len() {
                        doc_of(v@[i])
                    } else {
                        Doc::Null
                    },
            ),
        ),
        Json::Object(v) => Doc::Object(
            Seq::new(
                v@.len(),
                |i: int|
                    if 0 <= i < v@.len() {
                        (v@[i].0@, doc_of(v@[i].1))
                    } else {
                        (seq![], Doc::Null)
                    },
            ),
        ),
    }
}

impl View for Json {
    type V = Doc;

    open spec fn view(&self) -> Doc {
        doc_of(*self)
    }
}

/// The document behind a reference that may be absent.
pub open spec fn opt_doc(j: Option<&Json>) -> Option<Doc> {
    match j {
        Some(v) => Some(v@),
        None => None,
    }
}

/// The first member named `key`.
pub open spec fn lookup(members: Seq<(Seq<char>, Doc)>, key: Seq<char>) -> Option<Doc>
    decreases members.len(),
{
    if members.len() == 0 {
        None
    } else if members[0].0 == key {
        Some(members[0].1)
    } else {
        lookup(members.skip(1), key)
    }
}

/// The member `key` of a document that is an object.
pub open spec fn member(d: Option<Doc>, key: Seq<char>) -> Option<Doc> {
    match d {
        Some(Doc::Object(members)) => lookup(members, key),
        _ => None,
    }
}

/// The text of a document that is a text.
pub open spec fn text_in(d: Option<Doc>) -> Option<Seq<char>> {
    match d {
        Some(Doc::Text(t)) => Some(t),
        _ => None,
    }
}

/// The text of a document that is a text and not empty.
pub open spec fn filled_text_in(d: Option<Doc>) -> Option<Seq<char>> {
    match text_in(d) {
        Some(t) => if t.len() > 0 {
            Some(t)
        } else {
            None
        },
        None => None,
    }
}

/// The value of a document that is an integer from zero on.
pub open spec fn unsigned_in(d: Option<Doc>) -> Option<u64> {
    match d {
        Some(Doc::Unsigned(n)) => Some(n),
        _ => None,
    }
}

/// The value of a document that is an integer and fits in 64 signed bits.
pub open spec fn signed_in(d: Option<Doc>) -> Option<i64> {
    match d {
        Some(Doc::Unsigned(n)) => if n <= i64::MAX {
            Some(n as i64)
        } else {
            None
        },
        Some(Doc::Negative(n)) => Some(n),
        _ => None,
    }
}

/// The value of a document that is a truth value.
pub open spec fn bool_in(d: Option<Doc>) -> Option<bool> {
    match d {
        Some(Doc::Bool(b)) => Some(b),
        _ => None,
    }
}

/// The elements of a document that is an array.
pub open spec fn items_in(d: Option<Doc>) -> Option<Seq<Doc>> {
    match d {
        Some(Doc::Array(items)) => Some(items),
        _ => None,
    }
}

/// The first element of a document that is an array and not empty.
pub open spec fn first_item(d: Option<Doc>) -> Option<Doc> {
    match items_in(d) {
        Some(items) => if items.len() > 0 {
            Some(items[0])
        } else {
            None
        },
        None => None,
    }
}

/// The value of the first member of a document that is an object and not empty.
pub open spec fn first_member(d: Option<Doc>) -> Option<Doc> {
    match d {
        Some(Doc::Object(members)) => if members.len() > 0 {
            Some(members[0].1)
        } else {
            None
        },
        _ => None,
    }
}

/// `a`, and `b` where there is no `a`.
pub open spec fn or<T>(a: Option<T>, b: Option<T>) -> Option<T> {
    if a is Some {
        a
    } else {
        b
    }
}

/// What `a` holds, and `b` where it holds nothing.
pub open spec fn or_else<T>(a: Option<T>, b: T) -> T {
    match a {
        Some(t) => t,
        None => b,
    }
}

/// The views of the documents, in order.
pub open spec fn docs(v: Seq<Json>) -> Seq<Doc> {
    Seq::new(v.len(), |i: int| v[i]@)
}

/// The member `key` of a document.
pub fn get<'a>(value: Option<&'a Json>, key: &str) -> (r: Option<&'a Json>)
    ensures
        opt_doc(r) == member(opt_doc(value), key@),
{
    match value {
        Some(Json::Object(members)) => {
            let ghost all = match opt_doc(value) {
                Some(Doc::Object(m)) => m,
                _ => seq![],
            };
            proof {
                assert(all.skip(0) == all);
            }
            for i in 0..members.len()
                invariant
                    all.len() == members@.len(),
                    forall|j: int|
                        0 <= j < all.len() ==> #[trigger] all[j] == (members@[j].0@, members@[j].1@),
                    lookup(all, key@) == lookup(all.skip(i as int), key@),
                    opt_doc(value) == Some(Doc::Object(all)),
            {
                proof {
                    assert(all.skip(i as int).skip(1) == all.skip(i + 1));
                    assert(all.skip(i as int)[0] == all[i as int]);
                }
                if text_eq(members[i].0.as_str(), key) {
                    return Some(&members[i].1);
                }
            }
            None
        },
        _ => None,
    }
}

/// The text of a document that is a text.
pub fn as_text(value: Option<&Json>) -> (r: Option<String>)
    ensures
        text::opt_view(r) == text_in(opt_doc(value)),
{
    match value {
        Some(Json::Text(t)) => Some(t.clone()),
        _ => None,
    }
}

/// The text of a document that is a text, or `default`.
pub fn text_or(value: Option<&Json>, default: &str) -> (r: String)
    ensures
        r@ == or_else(text_in(opt_doc(value)), default@),
{
    match value {
        Some(Json::Text(t)) => t.clone(),
        _ => default.to_string(),
    }
}

/// The text of a document that is a text and not empty.
pub fn json_text(value: Option<&Json>) -> (r: Option<String>)
    ensures
        text::opt_view(r) == filled_text_in(opt_doc(value)),
{
    match value {
        Some(Json::Text(t)) => if t.as_str().is_empty() {
            None
        } else {
            Some(t.clone())
        },
        _ => None,
    }
}

/// The first text that is not empty among the members `keys` of a document.
pub open spec fn first_filled(d: Option<Doc>, keys: Seq<Seq<char>>) -> Option<Seq<char>>
    decreases keys.len(),
{
    if keys.len() == 0 {
        None
    } else {
        or(filled_text_in(member(d, keys[0])), first_filled(d, keys.skip(1)))
    }
}

/// The views of the names, in order.
pub open spec fn name_views(names: Seq<&str>) -> Seq<Seq<char>> {
    Seq::new(names.len(), |i: int| names[i]@)
}

/// The first text that is not empty among the members of a document.
pub fn first_text(value: Option<&Json>, names: &Vec<&str>) -> (r: Option<String>)
    ensures
        text::opt_view(r) == first_filled(opt_doc(value), name_views(names@)),
{
    let ghost all = name_views(names@);
    proof {
        assert(all.skip(0) =~= all);
    }
    for i in 0..names.len()
        invariant
            all == name_views(names@),
            first_filled(opt_doc(value), all) == first_filled(opt_doc(value), all.skip(i as int)),
    {
        let name: &str = names[i];
        let found: Option<String> = json_text(get(value, name));
        if found.is_some() {
            return found;
        }
        proof {
            assert(all.skip(i as int)[0] == name@);
            assert(all.skip(i as int).skip(1) =~= all.skip(i + 1));
        }
    }
    None
}

/// The value of a document that is an integer from zero on.
pub fn json_u64(value: Option<&Json>) -> (r: Option<u64>)
    ensures
        r == unsigned_in(opt_doc(value)),
{
    match value {
        Some(Json::Unsigned(n)) => Some(*n),
        _ => None,
    }
}

/// The value of a document that is an integer and fits in 64 signed bits.
pub fn as_i64(value: Option<&Json>) -> (r: Option<i64>)
    ensures
        r == signed_in(opt_doc(value)),
{
    match value {
        Some(Json::Unsigned(n)) => if *n <= 0x7fff_ffff_ffff_ffff {
            Some(*n as i64)
        } else {
            None
        },
        Some(Json::Negative(n)) => Some(*n),
        _ => None,
    }
}

/// The value of a document that is a truth value.
pub fn as_bool(value: Option<&Json>) -> (r: Option<bool>)
    ensures
        r == bool_in(opt_doc(value)),
{
    match value {
        Some(Json::Bool(b)) => Some(*b),
        _ => None,
    }
}

/// The elements of a document that is an array.
pub fn as_array<'a>(value: Option<&'a Json>) -> (r: Option<&'a Vec<Json>>)
    ensures
        match r {
            Some(items) => items_in(opt_doc(value)) == Some(docs(items@)),
            None => items_in(opt_doc(value)) is None,
        },
{
    match value {
        Some(Json::Array(items)) => {
            proof {
                if let Some(Doc::Array(d)) = opt_doc(value) {
                    assert(d =~= docs(items@));
                }
            }
            Some(items)
        },
        _ => None,
    }
}

/// The first element of a document that is an array and not empty.
pub fn get_first<'a>(value: Option<&'a Json>) -> (r: Option<&'a Json>)
    ensures
        opt_doc(r) == first_item(opt_doc(value)),
{
    match value {
        Some(Json::Array(items)) => if items.len() > 0 {
            Some(&items[0])
        } else {
            None
        },
        _ => None,
    }
}

/// The value of the first member of a document that is an object and not empty.
pub fn get_first_member<'a>(value: Option<&'a Json>) -> (r: Option<&'a Json>)
    ensures
        opt_doc(r) == first_member(opt_doc(value)),
{
    match value {
        Some(Json::Object(members)) => if members.len() > 0 {
            Some(&members[0].1)
        } else {
            None
        },
        _ => None,
    }
}

// ---------------------------------------------------------------------------
// Reading and writing, by serde_json
// ---------------------------------------------------------------------------
#[verifier::external_type_specification]
#[verifier::external_body]
pub struct ExValue(serde_json::Value);

/// The contents of a `serde_json::Value`.
pub uninterp spec fn value_doc(v: serde_json::Value) -> Doc;

/// The document that `serde_json::from_str` reads in a text, where it reads one.
pub uninterp spec fn json_parse(text: Seq<char>) -> Option<Doc>;

/// The text that `serde_json::to_string` writes for a document.
pub uninterp spec fn json_print(d: Doc) -> Seq<char>;

/// The outermost layer of a `serde_json::Value`. A number comes as its value
/// among the unsigned and among the signed integers, where it has one, and as it
/// is written.
pub(crate) enum Layer {
    Null,
    Bool(bool),
    Number(Option<u64>, Option<i64>, String),
    Text(String),
    Array(Vec<serde_json::Value>),
    Object(Vec<(String, serde_json::Value)>),
}

/// The contents of the values, in order.
pub open spec fn value_docs(v: Seq<serde_json::Value>) -> Seq<Doc> {
    Seq::new(v.len(), |i: int| value_doc(v[i]))
}

/// The names and contents of the members, in order.
pub open spec fn value_members(v: Seq<(String, serde_json::Value)>) -> Seq<(Seq<char>, Doc)> {
    Seq::new(v.len(), |i: int| (v[i].0@, value_doc(v[i].1)))
}

/// The document that an outermost layer belongs to.
pub(crate) open spec fn layer_doc(l: Layer) -> Doc {
    match l {
        Layer::Null => Doc::Null,
        Layer::Bool(b) => Doc::Bool(b),
        Layer::Number(Some(n), _, _) => Doc::Unsigned(n),
        Layer::Number(None, Some(n), _) => Doc::Negative(n),
        Layer::Number(None, None, t) => Doc::Fraction(t@),
        Layer::Text(t) => Doc::Text(t@),
        Layer::Array(v) => Doc::Array(value_docs(v@)),
        Layer::Object(v) => Doc::Object(value_members(v@)),
    }
}

/// `serde_json::from_str`: a function of the text alone.
#[verifier::external_body]
fn read_value(text: &str) -> (r: Option<serde_json::Value>)
    ensures
        match r {
            Some(v) => json_parse(text@) == Some(value_doc(v)),
            None => json_parse(text@) is None,
        },
{
    serde_json::from_str::<serde_json::Value>(text).ok()
}

/// Takes a `serde_json::Value` apart by its variant; nothing of its contents is
/// added or lost. An object gives its members in the order of its own iterator,
/// which is that of their names.
#[verifier::external_body]
fn open_value(v: serde_json::Value) -> (l: Layer)
    ensures
        layer_doc(l) == value_doc(v),
{
    match v {
        serde_json::Value::Null => Layer::Null,
        serde_json::Value::Bool(b) => Layer::Bool(b),
        serde_json::Value::Number(n) => Layer::Number(n.as_u64(), n.as_i64(), n.to_string()),
        serde_json::Value::String(t) => Layer::Text(t),
        serde_json::Value::Array(items) => Layer::Array(items),
        serde_json::Value::Object(members) => Layer::Object(members.into_iter().collect()),
    }
}

/// The library's own form of a `serde_json::Value`.
fn json_from_value(v: serde_json::Value) -> (r: Json)
    ensures
        r@ == value_doc(v),
    decreases value_doc(v),
{
    let ghost whole = value_doc(v);
    match open_value(v) {
        Layer::Null => Json::Null,
        Layer::Bool(b) => Json::Bool(b),
        Layer::Number(Some(n), _, _) => Json::Unsigned(n),
        Layer::Number(None, Some(n), _) => Json::Negative(n),
        Layer::Number(None, None, t) => Json::Fraction(t),
        Layer::Text(t) => Json::Text(t),
        Layer::Array(items) => {
            let ghost parts = items@;
            let mut out: Vec<Json> = Vec::new();
            for item in it: items
                invariant
                    it.seq() == parts,
                    whole == value_doc(v),
                    whole == Doc::Array(value_docs(parts)),
                    docs(out@) == value_docs(parts).take(it.index()),
            {
                proof {
                    let d = value_docs(parts);
                    assert(d[it.index()] == value_doc(item));
                    assert(decreases_to!(whole => whole->Array_0));
                    assert(decreases_to!(d => d[it.index()]));
                }
                let j: Json = json_from_value(item);
                let ghost before = docs(out@);
                out.push(j);
                proof {
                    assert(docs(out@) =~= before.push(j@));
                    assert(value_docs(parts).take(it.index() + 1) =~= before.push(j@));
                }
            }
            let r: Json = Json::Array(out);
            proof {
                if let Doc::Array(d) = r@ {
                    assert(d =~= docs(out@));
                    assert(d =~= value_docs(parts));
                }
            }
            r
        },
        Layer::Object(members) => {
            let ghost parts = members@;
            let mut out: Vec<(String, Json)> = Vec::new();
            for entry in it: members
                invariant
                    it.seq() == parts,
                    whole == value_doc(v),
                    whole == Doc::Object(value_members(parts)),
                    out@.len() == it.index(),
                    forall|k: int|
                        0 <= k < out@.len() ==> (#[trigger] out@[k].0@, out@[k].1@)
                            == value_members(parts)[k],
            {
                proof {
                    let d = value_members(parts);
                    assert(d[it.index()] == (entry.0@, value_doc(entry.1)));
                    assert(decreases_to!(whole => whole->Object_0));
                    assert(decreases_to!(d => d[it.index()]));
                    assert(decreases_to!(d[it.index()] => d[it.index()].1));
                }
                let (name, value) = entry;
                let j: Json = json_from_value(value);
                out.push((name, j));
            }
            let r: Json = Json::Object(out);
            proof {
                if let Doc::Object(d) = r@ {
                    assert(d =~= value_members(parts));
                }
            }
            r
        },
    }
}

/// Reads a JSON text.
pub fn parse_json(text: &str) -> (r: Option<Json>)
    ensures
        match r {
            Some(j) => json_parse(text@) == Some(j@),
            None => json_parse(text@) is None,
        },
{
    match read_value(text) {
        Some(v) => Some(json_from_value(v)),
        None => None,
    }
}

// ---------------------------------------------------------------------------
// Documents that are sent
// ---------------------------------------------------------------------------
/// A JSON document to be written.
pub enum JsonBody {
    Bool(bool),
    Unsigned(u64),
    Text(String),
    Array(Vec<JsonBody>),
    Object(Vec<(String, JsonBody)>),
}

/// `a` comes before `b` where texts are ordered character by character.
pub open spec fn precedes(a: Seq<char>, b: Seq<char>) -> bool
    decreases a.len(),
{
    if b.len() == 0 {
        false
    } else if a.len() == 0 {
        true
    } else if a[0] != b[0] {
        a[0] < b[0]
    } else {
        precedes(a.skip(1), b.skip(1))
    }
}

/// The members, which stand in the order of their names, with one more put in:
/// in the place of the one of that name, or where its name belongs.
pub open spec fn put_member(members: Seq<(Seq<char>, Doc)>, name: Seq<char>, value: Doc) -> Seq<
    (Seq<char>, Doc),
>
    decreases members.len(),
{
    if members.len() == 0 {
        seq![(name, value)]
    } else if members[0].0 == name {
        seq![(name, value)] + members.skip(1)
    } else if precedes(name, members[0].0) {
        seq![(name, value)] + members
    } else {
        seq![members[0]] + put_member(members.skip(1), name, value)
    }
}

/// The members in the order of their names; of two with one name the later.
pub open spec fn by_name(members: Seq<(Seq<char>, Doc)>) -> Seq<(Seq<char>, Doc)>
    decreases members.len(),
{
    if members.len() == 0 {
        seq![]
    } else {
        put_member(by_name(members.drop_last()), members.last().0, members.last().1)
    }
}

/// The object with the members given.
pub open spec fn object(members: Seq<(Seq<char>, Doc)>) -> Doc {
    Doc::Object(by_name(members))
}

/// The document that a body stands for.
pub open spec fn body_doc(b: JsonBody) -> Doc
    decreases b, 1nat,
{
    match b {
        JsonBody::Bool(x) => Doc::Bool(x),
        JsonBody::Unsigned(n) => Doc::Unsigned(n),
        JsonBody::Text(t) => Doc::Text(t@),
        JsonBody::Array(_) => Doc::Array(body_items(b)),
        JsonBody::Object(_) => object(body_members(b)),
    }
}

/// The documents of the elements of a body that is an array.
pub open spec fn body_items(b: JsonBody) -> Seq<Doc>
    decreases b, 0nat,
{
    match b {
        JsonBody::Array(v) => Seq::new(
            v@.len(),
            |i: int|
                if 0 <= i < v@.len() {
                    body_doc(v@[i])
                } else {
                    Doc::Null
                },
        ),
        _ => seq![],
    }
}

/// The names and documents of the members of a body that is an object, in the
/// order in which they were given.
pub open spec fn body_members(b: JsonBody) -> Seq<(Seq<char>, Doc)>
    decreases b, 0nat,
{
    match b {
        JsonBody::Object(v) => Seq::new(
            v@.len(),
            |i: int|
                if 0 <= i < v@.len() {
                    (v@[i].0@, body_doc(v@[i].1))
                } else {
                    (seq![], Doc::Null)
                },
        ),
        _ => seq![],
    }
}

impl View for JsonBody {
    type V = Doc;

    open spec fn view(&self) -> Doc {
        body_doc(*self)
    }
}

/// The names and documents of the members of an object to be written.
pub open spec fn pairs(v: Seq<(String, JsonBody)>) -> Seq<(Seq<char>, Doc)> {
    Seq::new(v.len(), |i: int| (v[i].0@, v[i].1@))
}

/// Adds one member to those of an object to be written.
pub fn put(members: &mut Vec<(String, JsonBody)>, name: &str, value: JsonBody)
    ensures
        pairs(final(members)@) == pairs(old(members)@).push((name@, value@)),
{
    let ghost before = pairs(members@);
    let ghost added = (name@, value@);
    members.push((name.to_string(), value));
    proof {
        assert(pairs(members@) =~= before.push(added));
    }
}

/// Adds one member that is a text.
pub fn put_text(members: &mut Vec<(String, JsonBody)>, name: &str, value: &str)
    ensures
        pairs(final(members)@) == pairs(old(members)@).push((name@, Doc::Text(value@))),
{
    put(members, name, JsonBody::Text(value.to_string()));
}

/// The object with the members given.
pub fn object_body(members: Vec<(String, JsonBody)>) -> (r: JsonBody)
    ensures
        r@ == object(pairs(members@)),
{
    let ghost given = pairs(members@);
    let r: JsonBody = JsonBody::Object(members);
    proof {
        assert(body_members(r) =~= given);
    }
    r
}

/// The array with one element.
pub fn array_of_one(item: JsonBody) -> (r: JsonBody)
    ensures
        r@ == Doc::Array(seq![item@]),
{
    let ghost d = item@;
    let r: JsonBody = JsonBody::Array(vec![item]);
    proof {
        assert(body_items(r) =~= seq![d]);
    }
    r
}

#[verifier::external_type_specification]
#[verifier::external_body]
#[verifier::reject_recursive_types(K)]
#[verifier::reject_recursive_types(V)]
pub struct ExMap<K, V>(serde_json::Map<K, V>);

/// The members of a `serde_json::Map`, in the order of its own iterator.
pub uninterp spec fn map_members(m: serde_json::Map<String, serde_json::Value>) -> Seq<
    (Seq<char>, Doc),
>;

/// `serde_json::Map::new`: a map without members.
#[verifier::external_body]
fn new_map() -> (m: serde_json::Map<String, serde_json::Value>)
    ensures
        map_members(m) == Seq::<(Seq<char>, Doc)>::empty(),
{
    serde_json::Map::new()
}

/// `serde_json::Map::insert`: the value of a name that is present is replaced, and
/// a new name is added. The map is ordered by its names.
#[verifier::external_body]
fn map_insert(
    m: &mut serde_json::Map<String, serde_json::Value>,
    name: String,
    value: serde_json::Value,
)
    ensures
        map_members(*final(m)) == put_member(map_members(*old(m)), name@, value_doc(value)),
{
    m.insert(name, value);
}

/// The outermost layer of a document to be written.
pub(crate) enum BodyLayer {
    Bool(bool),
    Unsigned(u64),
    Text(String),
    Array(Vec<serde_json::Value>),
    Object(serde_json::Map<String, serde_json::Value>),
}

/// The document that an outermost layer belongs to.
pub(crate) open spec fn body_layer_doc(l: BodyLayer) -> Doc {
    match l {
        BodyLayer::Bool(b) => Doc::Bool(b),
        BodyLayer::Unsigned(n) => Doc::Unsigned(n),
        BodyLayer::Text(t) => Doc::Text(t@),
        BodyLayer::Array(v) => Doc::Array(value_docs(v@)),
        BodyLayer::Object(m) => Doc::Object(map_members(m)),
    }
}

/// Makes a `serde_json::Value` of one layer, by the variant for it; nothing of its
/// contents is added or lost.
#[verifier::external_body]
fn make_value(l: BodyLayer) -> (v: serde_json::Value)
    ensures
        value_doc(v) == body_layer_doc(l),
{
    match l {
        BodyLayer::Bool(b) => serde_json::Value::Bool(b),
        BodyLayer::Unsigned(n) => serde_json::Value::Number(n.into()),
        BodyLayer::Text(t) => serde_json::Value::String(t),
        BodyLayer::Array(items) => serde_json::Value::Array(items),
        BodyLayer::Object(members) => serde_json::Value::Object(members),
    }
}

/// `serde_json::to_string`: a function of the document alone. On a
/// `serde_json::Value` it does not fail.
#[verifier::external_body]
fn write_value(v: &serde_json::Value) -> (r: String)
    ensures
        r@ == json_print(value_doc(*v)),
{
    serde_json::to_string(v).unwrap_or_default()
}

/// The `serde_json::Value` of a body.
fn value_from_body(b: &JsonBody) -> (v: serde_json::Value)
    ensures
        value_doc(v) == b@,
    decreases b,
{
    match b {
        JsonBody::Bool(x) => make_value(BodyLayer::Bool(*x)),
        JsonBody::Unsigned(n) => make_value(BodyLayer::Unsigned(*n)),
        JsonBody::Text(t) => make_value(BodyLayer::Text(t.clone())),
        JsonBody::Array(items) => {
            let mut out: Vec<serde_json::Value> = Vec::new();
            for i in 0..items.len()
                invariant
                    *b == JsonBody::Array(*items),
                    out@.len() == i,
                    forall|k: int| 0 <= k < i ==> value_doc(#[trigger] out@[k]) == items@[k]@,
            {
                proof {
                    assert(decreases_to!(*b => b->Array_0));
                    assert(decreases_to!(*items => items@));
                    assert(decreases_to!(items@ => items@[i as int]));
                }
                out.push(value_from_body(&items[i]));
            }
            proof {
                assert(value_docs(out@) =~= body_items(*b));
            }
            make_value(BodyLayer::Array(out))
        },
        JsonBody::Object(members) => {
            let ghost all = body_members(*b);
            let mut out: serde_json::Map<String, serde_json::Value> = new_map();
            proof {
                assert(all.take(0) =~= seq![]);
            }
            for i in 0..members.len()
                invariant
                    *b == JsonBody::Object(*members),
                    all == body_members(*b),
                    map_members(out) == by_name(all.take(i as int)),
            {
                proof {
                    assert(decreases_to!(*b => b->Object_0));
                    assert(decreases_to!(*members => members@));
                    assert(decreases_to!(members@ => members@[i as int]));
                    assert(decreases_to!(members@[i as int] => members@[i as int].1));
                }
                let value: serde_json::Value = value_from_body(&members[i].1);
                proof {
                    assert(all.take(i + 1).drop_last() =~= all.take(i as int));
                    assert(all.take(i + 1).last() == (members@[i as int].0@, value_doc(value)));
                }
                map_insert(&mut out, members[i].0.clone(), value);
            }
            proof {
                assert(all.take(all.len() as int) =~= all);
            }
            make_value(BodyLayer::Object(out))
        },
    }
}

/// Writes a document as JSON text.
pub fn json_to_string(b: &JsonBody) -> (r: String)
    ensures
        r@ == json_print(b@),
{
    write_value(&value_from_body(b))
}

// ---------------------------------------------------------------------------
// What holds of documents
// ---------------------------------------------------------------------------
/// The document has a member `name` that is the text `t`, and that is not empty.
pub open spec fn has_text(d: Option<Doc>, name: Seq<char>, t: Seq<char>) -> bool {
    member(d, name) == Some(Doc::Text(t)) && t.len() > 0
}

/// The document has no member `name` that is a text and not empty.
pub open spec fn has_no_text(d: Option<Doc>, name: Seq<char>) -> bool {
    forall|t: Seq<char>| !#[trigger] has_text(d, name, t)
}

/// The member of a name is the first of that name, and there is none where no
/// member has the name. What is no object has no members.
pub proof fn law_member_is_first_of_name(d: Option<Doc>, name: Seq<char>)
    ensures
        d matches Some(Doc::Object(m)) ==> match member(d, name) {
            Some(v) => exists|i: int|
                0 <= i < m.len() && #[trigger] m[i] == (name, v) && forall|j: int|
                    0 <= j < i ==> (#[trigger] m[j]).0 != name,
            None => forall|i: int| 0 <= i < m.len() ==> (#[trigger] m[i]).0 != name,
        },
        !(d matches Some(Doc::Object(_))) ==> member(d, name) is None,
{
    if let Some(Doc::Object(m)) = d {
        lemma_lookup(m, name);
    }
}

proof fn lemma_lookup(m: Seq<(Seq<char>, Doc)>, name: Seq<char>)
    ensures
        match lookup(m, name) {
            Some(v) => exists|i: int|
                0 <= i < m.len() && #[trigger] m[i] == (name, v) && forall|j: int|
                    0 <= j < i ==> (#[trigger] m[j]).0 != name,
            None => forall|i: int| 0 <= i < m.len() ==> (#[trigger] m[i]).0 != name,
        },
    decreases m.len(),
{
    if m.len() > 0 {
        if m[0].0 == name {
            assert(m[0] == (name, m[0].1));
        } else {
            let rest = m.skip(1);
            lemma_lookup(rest, name);
            if let Some(v) = lookup(rest, name) {
                let i = choose|i: int|
                    0 <= i < rest.len() && #[trigger] rest[i] == (name, v) && forall|j: int|
                        0 <= j < i ==> (#[trigger] rest[j]).0 != name;
                assert(m[i + 1] == (name, v));
                assert forall|j: int| 0 <= j < i + 1 implies (#[trigger] m[j]).0 != name by {
                    if j > 0 {
                        assert(m[j] == rest[j - 1]);
                    }
                }
            } else {
                assert forall|j: int| 0 <= j < m.len() implies (#[trigger] m[j]).0 != name by {
                    if j > 0 {
                        assert(m[j] == rest[j - 1]);
                    }
                }
            }
        }
    }
}

proof fn lemma_put_member(
    m: Seq<(Seq<char>, Doc)>,
    name: Seq<char>,
    value: Doc,
    other: Seq<char>,
)
    ensures
        lookup(put_member(m, name, value), other) == (if other == name {
            Some(value)
        } else {
            lookup(m, other)
        }),
    decreases m.len(),
{
    let now = put_member(m, name, value);
    if m.len() == 0 {
        assert(now.skip(1) =~= m);
        reveal_with_fuel(lookup, 2);
    } else if m[0].0 == name {
        assert(now.skip(1) =~= m.skip(1));
    } else if precedes(name, m[0].0) {
        assert(now.skip(1) =~= m);
    } else {
        lemma_put_member(m.skip(1), name, value, other);
        assert(now.skip(1) =~= put_member(m.skip(1), name, value));
    }
}

/// An object that is written has the members that it was given: under each name
/// the value that was given for it last, and none under another name.
pub proof fn law_object_has_its_members(given: Seq<(Seq<char>, Doc)>, name: Seq<char>, i: int)
    ensures
        0 <= i < given.len() && given[i].0 == name && (forall|j: int|
            i < j < given.len() ==> (#[trigger] given[j]).0 != name) ==> member(
            Some(object(given)),
            name,
        ) == Some(given[i].1),
        (forall|j: int| 0 <= j < given.len() ==> (#[trigger] given[j]).0 != name) ==> member(
            Some(object(given)),
            name,
        ) is None,
    decreases given.len(),
{
    if given.len() > 0 {
        let front = given.drop_last();
        lemma_put_member(by_name(front), given.last().0, given.last().1, name);
        if given.last().0 != name {
            law_object_has_its_members(front, name, i);
            if forall|j: int| 0 <= j < given.len() ==> (#[trigger] given[j]).0 != name {
                assert forall|j: int| 0 <= j < front.len() implies (#[trigger] front[j]).0 != name by {
                    assert(front[j] == given[j]);
                }
            }
            if 0 <= i < given.len() && given[i].0 == name && (forall|j: int|
                i < j < given.len() ==> (#[trigger] given[j]).0 != name) {
                assert forall|j: int| i < j < front.len() implies (#[trigger] front[j]).0 != name by {
                    assert(front[j] == given[j]);
                }
                assert(front[i] == given[i]);
            }
        } else {
            assert(given[given.len() - 1].0 == name);
        }
    }
}

/// Of the members of several names the first that is a text and not empty counts.
pub proof fn lemma_first_filled(d: Option<Doc>, keys: Seq<Seq<char>>, i: int, t: Seq<char>)
    ensures
        0 <= i < keys.len() && has_text(d, keys[i], t) && (forall|j: int|
            0 <= j < i ==> has_no_text(d, #[trigger] keys[j])) ==> first_filled(d, keys) == Some(t),
        (forall|j: int| 0 <= j < keys.len() ==> has_no_text(d, #[trigger] keys[j]))
            ==> first_filled(d, keys) is None,
    decreases keys.len(),
{
    if keys.len() > 0 {
        let rest = keys.skip(1);
        lemma_first_filled(d, rest, i - 1, t);
        if let Some(x) = filled_text_in(member(d, keys[0])) {
            assert(has_text(d, keys[0], x));
        }
        if forall|j: int| 0 <= j < keys.len() ==> has_no_text(d, #[trigger] keys[j]) {
            assert(has_no_text(d, keys[0]));
            assert forall|j: int| 0 <= j < rest.len() implies has_no_text(d, #[trigger] rest[j]) by {
                assert(rest[j] == keys[j + 1]);
            }
        }
        if 0 < i < keys.len() && has_text(d, keys[i], t) && (forall|j: int|
            0 <= j < i ==> has_no_text(d, #[trigger] keys[j])) {
            assert(has_no_text(d, keys[0]));
            assert(rest[i - 1] == keys[i]);
            assert forall|j: int| 0 <= j < i - 1 implies has_no_text(d, #[trigger] rest[j]) by {
                assert(rest[j] == keys[j + 1]);
            }
        }
    }
}

/// The document has a member `name` that is the integer `n`.
pub open spec fn has_integer(d: Option<Doc>, name: Seq<char>, n: i64) -> bool {
    match member(d, name) {
        Some(Doc::Unsigned(u)) => u == n,
        Some(Doc::Negative(i)) => i == n,
        _ => false,
    }
}

/// The document has no member `name` that is an integer of 64 signed bits.
pub open spec fn has_no_integer(d: Option<Doc>, name: Seq<char>) -> bool {
    forall|n: i64| !#[trigger] has_integer(d, name, n)
}

/// The integer of a member is read exactly where there is one.
pub proof fn lemma_integer(d: Option<Doc>, name: Seq<char>)
    ensures
        match signed_in(member(d, name)) {
            Some(n) => has_integer(d, name, n),
            None => has_no_integer(d, name),
        },
{
    if signed_in(member(d, name)) is None {
        assert forall|n: i64| !#[trigger] has_integer(d, name, n) by {
        }
    }
}

} // verus!
