//! JSON values, taken apart and put together one layer at a time.
use vstd::prelude::*;
use vstd::utf8::valid_utf8;

use crate::text::{same_text, text_option, texts};

verus! {

#[verifier::external_type_specification]
#[verifier::external_body]
pub struct ExJsonValue(serde_json::Value);

/// What a JSON value holds. An object keeps the order of its fields; a number
/// that is not an unsigned integer is `Other`.
pub enum JsonTree {
    Null,
    Bool(bool),
    Number(u64),
    Text(Seq<char>),
    List(Seq<JsonTree>),
    Object(Seq<(Seq<char>, JsonTree)>),
    Other,
}

/// What a `serde_json::Value` holds.
pub uninterp spec fn json_tree(value: serde_json::Value) -> JsonTree;

/// One layer of a JSON value.
pub enum Json {
    Null,
    Bool(bool),
    Number(u64),
    Text(String),
    List(Vec<serde_json::Value>),
    Object(Vec<(String, serde_json::Value)>),
}

pub open spec fn list_trees(items: Seq<serde_json::Value>) -> Seq<JsonTree> {
    items.map_values(|v: serde_json::Value| json_tree(v))
}

pub open spec fn field_trees(fields: Seq<(String, serde_json::Value)>) -> Seq<
    (Seq<char>, JsonTree),
> {
    fields.map_values(|f: (String, serde_json::Value)| (f.0@, json_tree(f.1)))
}

impl View for Json {
    type V = JsonTree;

    open spec fn view(&self) -> JsonTree {
        match *self {
            Json::Null => JsonTree::Null,
            Json::Bool(b) => JsonTree::Bool(b),
            Json::Number(n) => JsonTree::Number(n),
            Json::Text(s) => JsonTree::Text(s@),
            Json::List(items) => JsonTree::List(list_trees(items@)),
            Json::Object(fields) => JsonTree::Object(field_trees(fields@)),
        }
    }
}

/// One layer of a JSON value that is looked at.
pub enum JsonRef<'a> {
    Null,
    Bool(bool),
    Number(u64),
    Text(&'a str),
    List(&'a Vec<serde_json::Value>),
    Object(Vec<(&'a str, &'a serde_json::Value)>),
    Other,
}

/// The names and values of fields that are looked at.
pub open spec fn named_trees<'a>(fields: Seq<(&'a str, &'a serde_json::Value)>) -> Seq<
    (Seq<char>, JsonTree),
> {
    fields.map_values(|f: (&'a str, &'a serde_json::Value)| (f.0@, json_tree(*f.1)))
}

impl<'a> View for JsonRef<'a> {
    type V = JsonTree;

    open spec fn view(&self) -> JsonTree {
        match *self {
            JsonRef::Null => JsonTree::Null,
            JsonRef::Bool(b) => JsonTree::Bool(b),
            JsonRef::Number(n) => JsonTree::Number(n),
            JsonRef::Text(s) => JsonTree::Text(s@),
            JsonRef::List(items) => JsonTree::List(list_trees(items@)),
            JsonRef::Object(fields) => JsonTree::Object(named_trees(fields@)),
            JsonRef::Other => JsonTree::Other,
        }
    }
}

/// Whether no two fields of an object have the same name.
pub open spec fn distinct_names(fields: Seq<(Seq<char>, JsonTree)>) -> bool {
    forall|i: int, j: int| 0 <= i < j < fields.len() ==> fields[i].0 != fields[j].0
}

/// Whether a value is made of nulls, truth values, unsigned integers and texts,
/// in lists and objects nested at most `depth` deep.
pub open spec fn plain(tree: JsonTree, depth: nat) -> bool
    decreases depth,
{
    match tree {
        JsonTree::Other => false,
        JsonTree::List(items) => depth > 0 && forall|i: int|
            0 <= i < items.len() ==> plain(#[trigger] items[i], (depth - 1) as nat),
        JsonTree::Object(fields) => depth > 0 && forall|i: int|
            0 <= i < fields.len() ==> plain((#[trigger] fields[i]).1, (depth - 1) as nat),
        _ => true,
    }
}

/// The depth to which JSON text is read back.
pub open spec fn json_depth() -> nat {
    127
}

/// What begins the names that `serde_json` keeps for its own use.
pub const RESERVED_PREFIX: &'static str = "$serde_json::private::";

/// Whether a name is one that `serde_json` may keep for its own use.
pub open spec fn is_reserved(name: Seq<char>) -> bool {
    RESERVED_PREFIX@.is_prefix_of(name)
}

/// Whether no object in a value begins with a reserved name.
pub open spec fn ordinary(tree: JsonTree) -> bool
    decreases tree,
{
    match tree {
        JsonTree::List(items) => forall|i: int|
            0 <= i < items.len() ==> ordinary(#[trigger] items[i]),
        JsonTree::Object(fields) => (fields.len() > 0 ==> !is_reserved(fields[0].0)) && forall|
            i: int,
        |
            0 <= i < fields.len() ==> ordinary((#[trigger] fields[i]).1),
        _ => true,
    }
}

/// A name that begins with another character is not reserved.
pub proof fn lemma_not_reserved(name: Seq<char>)
    requires
        name.len() == 0 || name[0] != '$',
    ensures
        !is_reserved(name),
{
    reveal_strlit("$serde_json::private::");
    if is_reserved(name) {
        assert(name[0] == RESERVED_PREFIX@[0]);
    }
}

/// The JSON text of a plain value, in UTF-8.
pub uninterp spec fn json_bytes(tree: JsonTree) -> Seq<u8>;

/// What JSON text stands for; nothing where it is malformed.
pub uninterp spec fn json_parsed(bytes: Seq<u8>) -> Option<JsonTree>;

/// The variants of `serde_json::Value`, built from one layer. The fields of an
/// object keep their order.
#[verifier::external_body]
pub(crate) fn json_value(layer: Json) -> (r: serde_json::Value)
    requires
        layer@ matches JsonTree::Object(fields) ==> distinct_names(fields),
    ensures
        json_tree(r) == layer@,
{
    match layer {
        Json::Null => serde_json::Value::Null,
        Json::Bool(b) => serde_json::Value::Bool(b),
        Json::Number(n) => serde_json::Value::Number(n.into()),
        Json::Text(s) => serde_json::Value::String(s),
        Json::List(items) => serde_json::Value::Array(items),
        Json::Object(fields) => serde_json::Value::Object(fields.into_iter().collect()),
    }
}

/// The variants of `serde_json::Value`, told apart; `as_u64` gives a number that
/// is an unsigned integer, and `Map::iter` the fields of an object in their order.
#[verifier::external_body]
pub(crate) fn json_layer<'a>(value: &'a serde_json::Value) -> (r: JsonRef<'a>)
    ensures
        r@ == json_tree(*value),
{
    match value {
        serde_json::Value::Null => JsonRef::Null,
        serde_json::Value::Bool(b) => JsonRef::Bool(*b),
        serde_json::Value::Number(n) => n.as_u64().map_or(JsonRef::Other, JsonRef::Number),
        serde_json::Value::String(s) => JsonRef::Text(s.as_str()),
        serde_json::Value::Array(items) => JsonRef::List(items),
        serde_json::Value::Object(map) => {
            JsonRef::Object(map.iter().map(|field| (field.0.as_str(), field.1)).collect())
        },
    }
}

/// The fields with another value in the last of them.
pub open spec fn with_last(fields: Seq<(Seq<char>, JsonTree)>, value: JsonTree) -> Seq<
    (Seq<char>, JsonTree),
> {
    fields.drop_last().push((fields.last().0, value))
}

/// `serde_json::to_vec` on a plain `Value`, which does not fail and writes UTF-8.
/// The text is a function of what the value holds. Reading it gives the value back
/// where no object begins with a reserved name: such an object can be read as what
/// the text in its first field stands for, which depends on how `serde_json` is
/// built and is not stated here. The text is compact and takes `false` in five
/// bytes and `true` in four: an object whose last value is false takes one byte
/// more than with true there.
#[verifier::external_body]
pub(crate) fn json_write(value: &serde_json::Value) -> (r: Option<Vec<u8>>)
    requires
        plain(json_tree(*value), json_depth()),
    ensures
        r is Some,
        valid_utf8(r->0@),
        r->0@ == json_bytes(json_tree(*value)),
        ordinary(json_tree(*value)) ==> json_parsed(r->0@) == Some(json_tree(*value)),
        match json_tree(*value) {
            JsonTree::Object(fields) => fields.len() > 0 && fields.last().1 == JsonTree::Bool(false)
                ==> r->0@.len() == json_bytes(
                JsonTree::Object(with_last(fields, JsonTree::Bool(true))),
            ).len() + 1,
            _ => true,
        },
{
    serde_json::to_vec(value).ok()
}

/// `serde_json::from_slice` to a `Value`: what the text stands for, or nothing. Of
/// the fields of an object with one name, the value has the last.
#[verifier::external_body]
pub(crate) fn json_read(bytes: &[u8]) -> (r: Option<serde_json::Value>)
    ensures
        match r {
            Some(value) => json_parsed(bytes@) == Some(json_tree(value)),
            None => json_parsed(bytes@) is None,
        },
{
    serde_json::from_slice(bytes).ok()
}

/// The value of the last field of that name.
pub open spec fn field_value(fields: Seq<(Seq<char>, JsonTree)>, name: Seq<char>) -> Option<
    JsonTree,
>
    decreases fields.len(),
{
    if fields.len() == 0 {
        None
    } else if fields.last().0 == name {
        Some(fields.last().1)
    } else {
        field_value(fields.drop_last(), name)
    }
}

/// Under distinct names each field is found by its name.
pub proof fn lemma_field_value(fields: Seq<(Seq<char>, JsonTree)>, i: int)
    requires
        distinct_names(fields),
        0 <= i < fields.len(),
    ensures
        field_value(fields, fields[i].0) == Some(fields[i].1),
    decreases fields.len(),
{
    if i < fields.len() - 1 {
        let rest = fields.drop_last();
        assert(fields[i].0 != fields[fields.len() - 1].0);
        lemma_field_value(rest, i);
        assert(rest[i] == fields[i]);
    }
}

/// Whether an object has one field of a name, and this in it.
pub open spec fn holds(tree: JsonTree, name: Seq<char>, value: JsonTree) -> bool {
    match tree {
        JsonTree::Object(fields) => {
            &&& fields.contains((name, value))
            &&& forall|i: int|
                0 <= i < fields.len() && (#[trigger] fields[i]).0 == name ==> fields[i].1 == value
        },
        _ => false,
    }
}

/// Whether an object has no field of a name.
pub open spec fn lacks(tree: JsonTree, name: Seq<char>) -> bool {
    match tree {
        JsonTree::Object(fields) => forall|i: int|
            0 <= i < fields.len() ==> (#[trigger] fields[i]).0 != name,
        _ => false,
    }
}

/// Under distinct names an object holds each of its fields.
pub proof fn lemma_holds(fields: Seq<(Seq<char>, JsonTree)>, i: int)
    requires
        distinct_names(fields),
        0 <= i < fields.len(),
    ensures
        holds(JsonTree::Object(fields), fields[i].0, fields[i].1),
{
    let name = fields[i].0;
    let value = fields[i].1;
    assert(fields[i] == (name, value));
    assert(fields.contains((name, value)));
    assert forall|j: int| 0 <= j < fields.len() && (#[trigger] fields[j]).0 == name implies
        fields[j].1 == value by {
        assert(i < j ==> fields[i].0 != fields[j].0);
        assert(j < i ==> fields[j].0 != fields[i].0);
    }
}

/// An object holds one value under a name.
pub proof fn lemma_held_once(tree: JsonTree, name: Seq<char>, a: JsonTree, b: JsonTree)
    requires
        holds(tree, name, a),
        holds(tree, name, b),
    ensures
        a == b,
{
    let fields = tree->Object_0;
    let i = choose|i: int| 0 <= i < fields.len() && fields[i] == (name, b);
    assert(fields[i].1 == a);
}

/// The fields of a record: those of an object, or, of a list of as many values as
/// the record has fields, the values in the order of the names.
pub open spec fn record_fields(tree: JsonTree, names: Seq<Seq<char>>) -> Option<
    Seq<(Seq<char>, JsonTree)>,
> {
    match tree {
        JsonTree::Object(fields) => Some(fields),
        JsonTree::List(items) => if items.len() == names.len() {
            Some(Seq::new(names.len(), |i: int| (names[i], items[i])))
        } else {
            None
        },
        _ => None,
    }
}

pub open spec fn name_texts(names: Seq<&'static str>) -> Seq<Seq<char>> {
    names.map_values(|s: &'static str| s@)
}

pub fn record_of<'a>(value: &'a serde_json::Value, names: &Vec<&'static str>) -> (r: Option<
    Vec<(&'a str, &'a serde_json::Value)>,
>)
    ensures
        match r {
            Some(fields) => record_fields(json_tree(*value), name_texts(names@)) == Some(
                named_trees(fields@),
            ),
            None => record_fields(json_tree(*value), name_texts(names@)) is None,
        },
{
    match json_layer(value) {
        JsonRef::Object(fields) => Some(fields),
        JsonRef::List(items) => {
            if items.len() != names.len() {
                return None;
            }
            let mut fields: Vec<(&'a str, &'a serde_json::Value)> = Vec::new();
            let mut i: usize = 0;
            while i < names.len()
                invariant
                    i <= names@.len() == items@.len(),
                    fields@.len() == i,
                    forall|j: int|
                        0 <= j < i ==> (#[trigger] fields@[j]).0@ == names@[j]@ && *fields@[j].1
                            == items@[j],
                decreases names@.len() - i,
            {
                fields.push((names[i], &items[i]));
                i = i + 1;
            }
            proof {
                let wanted = record_fields(json_tree(*value), name_texts(names@))->Some_0;
                assert(named_trees(fields@) =~= wanted);
            }
            Some(fields)
        },
        _ => None,
    }
}

pub(crate) fn find_field<'a>(
    fields: &Vec<(&'a str, &'a serde_json::Value)>,
    name: &str,
) -> (r: Option<&'a serde_json::Value>)
    ensures
        match r {
            Some(value) => field_value(named_trees(fields@), name@) == Some(json_tree(*value)),
            None => field_value(named_trees(fields@), name@) is None,
        },
{
    let ghost all = named_trees(fields@);
    let mut n: usize = fields.len();
    proof {
        assert(all.take(n as int) =~= all);
    }
    while n > 0
        invariant
            n <= fields@.len(),
            all == named_trees(fields@),
            field_value(all, name@) == field_value(all.take(n as int), name@),
        decreases n,
    {
        proof {
            assert(all.take(n as int).last() == all[n - 1]);
            assert(all.take(n as int).drop_last() =~= all.take(n - 1));
        }
        if same_text(fields[n - 1].0, name) {
            return Some(fields[n - 1].1);
        }
        n = n - 1;
    }
    None
}

/// The text in a field.
pub open spec fn text_in(fields: Seq<(Seq<char>, JsonTree)>, name: Seq<char>) -> Option<Seq<char>> {
    match field_value(fields, name) {
        Some(JsonTree::Text(s)) => Some(s),
        _ => None,
    }
}

pub fn text_field<'a>(
    fields: &Vec<(&'a str, &'a serde_json::Value)>,
    name: &str,
) -> (r: Option<String>)
    ensures
        text_option(r) == text_in(named_trees(fields@), name@),
{
    match find_field(fields, name) {
        Some(value) => match json_layer(value) {
            JsonRef::Text(s) => Some(s.to_owned()),
            _ => None,
        },
        None => None,
    }
}

/// The text in a field that may be missing or null; nothing where it holds
/// something else.
pub open spec fn optional_text_in(fields: Seq<(Seq<char>, JsonTree)>, name: Seq<char>) -> Option<
    Option<Seq<char>>,
> {
    match field_value(fields, name) {
        None => Some(None),
        Some(JsonTree::Null) => Some(None),
        Some(JsonTree::Text(s)) => Some(Some(s)),
        _ => None,
    }
}

pub fn optional_text_field<'a>(
    fields: &Vec<(&'a str, &'a serde_json::Value)>,
    name: &str,
) -> (r: Option<Option<String>>)
    ensures
        match r {
            Some(value) => optional_text_in(named_trees(fields@), name@) == Some(
                text_option(value),
            ),
            None => optional_text_in(named_trees(fields@), name@) is None,
        },
{
    match find_field(fields, name) {
        Some(value) => match json_layer(value) {
            JsonRef::Text(s) => Some(Some(s.to_owned())),
            JsonRef::Null => Some(None),
            _ => None,
        },
        None => Some(None),
    }
}

/// The unsigned integer in a field.
pub open spec fn number_in(fields: Seq<(Seq<char>, JsonTree)>, name: Seq<char>) -> Option<u64> {
    match field_value(fields, name) {
        Some(JsonTree::Number(n)) => Some(n),
        _ => None,
    }
}

pub fn number_field<'a>(
    fields: &Vec<(&'a str, &'a serde_json::Value)>,
    name: &str,
) -> (r: Option<u64>)
    ensures
        r == number_in(named_trees(fields@), name@),
{
    match find_field(fields, name) {
        Some(value) => match json_layer(value) {
            JsonRef::Number(n) => Some(n),
            _ => None,
        },
        None => None,
    }
}

/// The truth value in a field.
pub open spec fn flag_in(fields: Seq<(Seq<char>, JsonTree)>, name: Seq<char>) -> Option<bool> {
    match field_value(fields, name) {
        Some(JsonTree::Bool(b)) => Some(b),
        _ => None,
    }
}

pub fn flag_field<'a>(
    fields: &Vec<(&'a str, &'a serde_json::Value)>,
    name: &str,
) -> (r: Option<bool>)
    ensures
        r == flag_in(named_trees(fields@), name@),
{
    match find_field(fields, name) {
        Some(value) => match json_layer(value) {
            JsonRef::Bool(b) => Some(b),
            _ => None,
        },
        None => None,
    }
}

/// The object in a field.
pub open spec fn object_in(fields: Seq<(Seq<char>, JsonTree)>, name: Seq<char>) -> Option<
    Seq<(Seq<char>, JsonTree)>,
> {
    match field_value(fields, name) {
        Some(JsonTree::Object(inner)) => Some(inner),
        _ => None,
    }
}

pub fn object_field<'a>(
    fields: &Vec<(&'a str, &'a serde_json::Value)>,
    name: &str,
) -> (r: Option<Vec<(&'a str, &'a serde_json::Value)>>)
    ensures
        match r {
            Some(inner) => object_in(named_trees(fields@), name@) == Some(named_trees(inner@)),
            None => object_in(named_trees(fields@), name@) is None,
        },
{
    match find_field(fields, name) {
        Some(value) => match json_layer(value) {
            JsonRef::Object(inner) => Some(inner),
            _ => None,
        },
        None => None,
    }
}

/// A list of texts.
pub open spec fn text_list(list: Seq<Seq<char>>) -> JsonTree {
    JsonTree::List(list.map_values(|s: Seq<char>| JsonTree::Text(s)))
}

/// The texts of a list that holds nothing else.
pub open spec fn listed_texts(tree: JsonTree) -> Option<Seq<Seq<char>>> {
    match tree {
        JsonTree::List(items) => if forall|i: int| 0 <= i < items.len() ==> (#[trigger] items[i])
            is Text {
            Some(items.map_values(|t: JsonTree| t->Text_0))
        } else {
            None
        },
        _ => None,
    }
}

pub proof fn lemma_listed_texts(list: Seq<Seq<char>>)
    ensures
        listed_texts(text_list(list)) == Some(list),
{
    let items = list.map_values(|s: Seq<char>| JsonTree::Text(s));
    assert(items.map_values(|t: JsonTree| t->Text_0) =~= list);
}

/// The texts in a field that holds a list of them.
pub open spec fn texts_in(fields: Seq<(Seq<char>, JsonTree)>, name: Seq<char>) -> Option<
    Seq<Seq<char>>,
> {
    match field_value(fields, name) {
        Some(tree) => listed_texts(tree),
        None => None,
    }
}

pub fn texts_field<'a>(
    fields: &Vec<(&'a str, &'a serde_json::Value)>,
    name: &str,
) -> (r: Option<Vec<String>>)
    ensures
        match r {
            Some(list) => texts_in(named_trees(fields@), name@) == Some(texts(list@)),
            None => texts_in(named_trees(fields@), name@) is None,
        },
{
    let items = match find_field(fields, name) {
        Some(value) => match json_layer(value) {
            JsonRef::List(items) => items,
            _ => {
                return None;
            },
        },
        None => {
            return None;
        },
    };
    let ghost all = list_trees(items@);
    let mut out: Vec<String> = Vec::new();
    let mut i: usize = 0;
    while i < items.len()
        invariant
            i <= items@.len(),
            all == list_trees(items@),
            texts_in(named_trees(fields@), name@) == listed_texts(JsonTree::List(all)),
            forall|j: int| 0 <= j < i ==> (#[trigger] all[j]) is Text,
            out@.len() == i,
            forall|j: int| 0 <= j < i ==> (#[trigger] out@[j])@ == all[j]->Text_0,
        decreases items@.len() - i,
    {
        proof {
            assert(all[i as int] == json_tree(items@[i as int]));
        }
        match json_layer(&items[i]) {
            JsonRef::Text(s) => {
                out.push(s.to_owned());
            },
            _ => {
                return None;
            },
        }
        i = i + 1;
    }
    proof {
        assert(texts(out@) =~= all.map_values(|t: JsonTree| t->Text_0));
    }
    Some(out)
}

/// The fields with one more behind them.
pub fn with_field(
    fields: Vec<(String, serde_json::Value)>,
    name: &str,
    value: Json,
) -> (r: Vec<(String, serde_json::Value)>)
    requires
        value@ matches JsonTree::Object(inner) ==> distinct_names(inner),
    ensures
        field_trees(r@) == field_trees(fields@).push((name@, value@)),
{
    let mut out = fields;
    let ghost before = field_trees(out@);
    let ghost added = value@;
    let held = json_value(value);
    out.push((name.to_owned(), held));
    proof {
        assert(field_trees(out@) =~= before.push((name@, added)));
    }
    out
}

pub fn with_text(fields: Vec<(String, serde_json::Value)>, name: &str, value: &str) -> (r: Vec<
    (String, serde_json::Value),
>)
    ensures
        field_trees(r@) == field_trees(fields@).push((name@, JsonTree::Text(value@))),
{
    with_field(fields, name, Json::Text(value.to_owned()))
}

pub fn with_number(fields: Vec<(String, serde_json::Value)>, name: &str, value: u64) -> (r: Vec<
    (String, serde_json::Value),
>)
    ensures
        field_trees(r@) == field_trees(fields@).push((name@, JsonTree::Number(value))),
{
    with_field(fields, name, Json::Number(value))
}

pub fn with_flag(fields: Vec<(String, serde_json::Value)>, name: &str, value: bool) -> (r: Vec<
    (String, serde_json::Value),
>)
    ensures
        field_trees(r@) == field_trees(fields@).push((name@, JsonTree::Bool(value))),
{
    with_field(fields, name, Json::Bool(value))
}

/// An optional text; null where there is none.
pub open spec fn optional_text(value: Option<Seq<char>>) -> JsonTree {
    match value {
        Some(s) => JsonTree::Text(s),
        None => JsonTree::Null,
    }
}

pub fn with_optional_text(
    fields: Vec<(String, serde_json::Value)>,
    name: &str,
    value: &Option<String>,
) -> (r: Vec<(String, serde_json::Value)>)
    ensures
        field_trees(r@) == field_trees(fields@).push((name@, optional_text(text_option(*value)))),
{
    match value {
        Some(s) => with_field(fields, name, Json::Text(s.clone())),
        None => with_field(fields, name, Json::Null),
    }
}

pub fn with_texts(
    fields: Vec<(String, serde_json::Value)>,
    name: &str,
    list: &Vec<String>,
) -> (r: Vec<(String, serde_json::Value)>)
    ensures
        field_trees(r@) == field_trees(fields@).push((name@, text_list(texts(list@)))),
{
    let mut items: Vec<serde_json::Value> = Vec::new();
    let ghost wanted = texts(list@).map_values(|s: Seq<char>| JsonTree::Text(s));
    let mut i: usize = 0;
    while i < list.len()
        invariant
            i <= list@.len(),
            wanted == texts(list@).map_values(|s: Seq<char>| JsonTree::Text(s)),
            list_trees(items@) == wanted.take(i as int),
        decreases list@.len() - i,
    {
        let ghost before = list_trees(items@);
        items.push(json_value(Json::Text(list[i].clone())));
        proof {
            assert(list_trees(items@) =~= before.push(wanted[i as int]));
            assert(wanted.take(i + 1) =~= wanted.take(i as int).push(wanted[i as int]));
        }
        i = i + 1;
    }
    proof {
        assert(wanted.take(wanted.len() as int) =~= wanted);
    }
    with_field(fields, name, Json::List(items))
}

/// A list of texts is plain at every depth but none.
pub proof fn lemma_plain_texts(list: Seq<Seq<char>>, depth: nat)
    requires
        depth >= 1,
    ensures
        plain(text_list(list), depth),
        ordinary(text_list(list)),
{
    reveal_with_fuel(ordinary, 2);
    let items = list.map_values(|s: Seq<char>| JsonTree::Text(s));
    assert forall|i: int| 0 <= i < items.len() implies plain(
        #[trigger] items[i],
        (depth - 1) as nat,
    ) by {
        assert(items[i] == JsonTree::Text(list[i]));
    }
}

/// What is plain at some depth is plain at every greater one.
pub proof fn lemma_plain_deeper(tree: JsonTree, depth: nat, more: nat)
    requires
        plain(tree, depth),
        depth <= more,
    ensures
        plain(tree, more),
    decreases depth,
{
    match tree {
        JsonTree::List(items) => {
            assert forall|i: int| 0 <= i < items.len() implies plain(
                #[trigger] items[i],
                (more - 1) as nat,
            ) by {
                lemma_plain_deeper(items[i], (depth - 1) as nat, (more - 1) as nat);
            }
        },
        JsonTree::Object(fields) => {
            assert forall|i: int| 0 <= i < fields.len() implies plain(
                (#[trigger] fields[i]).1,
                (more - 1) as nat,
            ) by {
                lemma_plain_deeper(fields[i].1, (depth - 1) as nat, (more - 1) as nat);
            }
        },
        _ => {},
    }
}

} // verus!
