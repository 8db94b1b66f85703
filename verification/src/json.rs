//! JSON values.
use crate::dict::{Dict, Duplicate, distinct_keys, map_of, has_key};
use crate::text::{same, texts};
use vstd::prelude::*;

verus! {

#[verifier::external_type_specification]
#[verifier::external_body]
pub struct ExJsonValue(serde_json::Value);

/// What a JSON value says. Values that compare equal say the same. Numbers that are not integers
/// are told apart by an index.
pub enum Json {
    Null,
    Bool(bool),
    Integer(int),
    Fraction(int),
    Text(Seq<char>),
    Array(Seq<Json>),
    Object(Map<Seq<char>, Json>),
}

/// What a `serde_json::Value` holds.
pub uninterp spec fn json_model(value: serde_json::Value) -> Json;

/// The text that `serde_canonical::ser::to_string` gives for a value, where it gives one.
pub uninterp spec fn canonical_json(value: Json) -> Option<Seq<char>>;

/// The `Null` variant of `serde_json::Value`.
#[verifier::external_body]
fn null_value() -> (v: serde_json::Value)
    ensures
        json_model(v) == Json::Null,
{
    serde_json::Value::Null
}

/// `serde_json::Value::from` on a `bool` gives that JSON boolean.
#[verifier::external_body]
fn bool_value(b: bool) -> (v: serde_json::Value)
    ensures
        json_model(v) == Json::Bool(b),
{
    serde_json::Value::from(b)
}

/// `serde_json::Value::from` on an `i64` gives that JSON number.
#[verifier::external_body]
fn integer_value(n: i64) -> (v: serde_json::Value)
    ensures
        json_model(v) == Json::Integer(n as int),
{
    serde_json::Value::from(n)
}

/// `serde_json::Value::from` on a `&str` gives the JSON string with the same characters.
#[verifier::external_body]
fn text_value(s: &str) -> (v: serde_json::Value)
    ensures
        json_model(v) == Json::Text(s@),
{
    serde_json::Value::from(s)
}

/// `serde_json::Value::from` on an empty vector gives the empty JSON array.
#[verifier::external_body]
fn array_value() -> (v: serde_json::Value)
    ensures
        json_model(v) == Json::Array(Seq::empty()),
{
    serde_json::Value::from(Vec::<serde_json::Value>::new())
}

/// `Vec::push` on the elements of a JSON array.
#[verifier::external_body]
fn push_value(array: &mut serde_json::Value, item: serde_json::Value)
    requires
        json_model(*old(array)) is Array,
    ensures
        json_model(*final(array)) == Json::Array(
            json_model(*old(array))->Array_0.push(json_model(item)),
        ),
{
    if let serde_json::Value::Array(items) = array {
        items.push(item);
    }
}

/// `serde_json::Map::new` gives the empty JSON object.
#[verifier::external_body]
fn object_value() -> (v: serde_json::Value)
    ensures
        json_model(v) == Json::Object(Map::empty()),
{
    serde_json::Value::Object(serde_json::Map::new())
}

/// `serde_json::Map::insert` on the members of a JSON object: the member with the key is replaced,
/// or added where there is none.
#[verifier::external_body]
fn insert_value(object: &mut serde_json::Value, key: &str, value: serde_json::Value)
    requires
        json_model(*old(object)) is Object,
    ensures
        json_model(*final(object)) == Json::Object(
            json_model(*old(object))->Object_0.insert(key@, json_model(value)),
        ),
{
    if let serde_json::Value::Object(members) = object {
        members.insert(key.to_owned(), value);
    }
}

/// `serde_json::Value::get` with a string index: the member of an object with that key; nothing for
/// a value of another kind.
#[verifier::external_body]
fn get_value<'a>(value: &'a serde_json::Value, key: &str) -> (r: Option<&'a serde_json::Value>)
    ensures
        match r {
            Some(v) => json_model(*value) is Object && json_model(
                *value,
            )->Object_0.contains_key(key@) && json_model(*value)->Object_0[key@] == json_model(*v),
            None => json_model(*value) is Object ==> !json_model(
                *value,
            )->Object_0.contains_key(key@),
        },
{
    value.get(key)
}

/// `serde_json::Value::as_object`, then `serde_json::Map::keys`: the keys of an object, each once;
/// nothing for a value of another kind.
#[verifier::external_body]
fn keys_value(value: &serde_json::Value) -> (r: Option<Vec<String>>)
    ensures
        match r {
            Some(keys) => json_model(*value) is Object && texts(keys@).no_duplicates() && texts(
                keys@,
            ).to_set() == json_model(*value)->Object_0.dom(),
            None => !(json_model(*value) is Object),
        },
{
    value.as_object().map(|members| members.keys().cloned().collect())
}

/// `serde_json::Value::as_str`: the characters of a JSON string; nothing for a value of another
/// kind.
#[verifier::external_body]
fn str_value(value: &serde_json::Value) -> (r: Option<&str>)
    ensures
        match r {
            Some(s) => json_model(*value) == Json::Text(s@),
            None => !(json_model(*value) is Text),
        },
{
    value.as_str()
}

/// `==` on `serde_json::Value`.
#[verifier::external_body]
fn same_value(a: &serde_json::Value, b: &serde_json::Value) -> (r: bool)
    ensures
        r == (json_model(*a) == json_model(*b)),
{
    a == b
}

/// `serde_json::Value::clone` gives a value that compares equal.
#[verifier::external_body]
fn copy_value(value: &serde_json::Value) -> (r: serde_json::Value)
    ensures
        json_model(r) == json_model(*value),
{
    value.clone()
}

/// `serde_canonical::ser::to_string`: the text depends on what the value says alone. Which values
/// have one is not stated: those in which some number has a fractional part, or is a float too large
/// for an integer, have none.
#[verifier::external_body]
fn canonical_value(value: &serde_json::Value) -> (r: Option<String>)
    ensures
        match r {
            Some(s) => canonical_json(json_model(*value)) == Some(s@),
            None => canonical_json(json_model(*value)) is None,
        },
{
    serde_canonical::ser::to_string(value).ok()
}

/// A JSON value.
pub struct JsonValue {
    inner: serde_json::Value,
}

impl View for JsonValue {
    type V = Json;

    closed spec fn view(&self) -> Json {
        json_model(self.inner)
    }
}

impl Duplicate for JsonValue {
    fn duplicate(&self) -> (copy: Self) {
        JsonValue { inner: copy_value(&self.inner) }
    }
}

impl Clone for JsonValue {
    fn clone(&self) -> (copy: Self)
        ensures
            copy@ == self@,
    {
        self.duplicate()
    }
}

impl JsonValue {
    /// Holds a value of the JSON library.
    pub fn new(inner: serde_json::Value) -> (v: Self)
        ensures
            v@ == json_model(inner),
    {
        JsonValue { inner }
    }

    /// Hands out the value of the JSON library.
    pub fn into_inner(self) -> (inner: serde_json::Value)
        ensures
            json_model(inner) == self@,
    {
        self.inner
    }

    pub fn null() -> (v: Self)
        ensures
            v@ == Json::Null,
    {
        JsonValue { inner: null_value() }
    }

    pub fn bool(b: bool) -> (v: Self)
        ensures
            v@ == Json::Bool(b),
    {
        JsonValue { inner: bool_value(b) }
    }

    pub fn integer(n: i64) -> (v: Self)
        ensures
            v@ == Json::Integer(n as int),
    {
        JsonValue { inner: integer_value(n) }
    }

    pub fn text(s: &str) -> (v: Self)
        ensures
            v@ == Json::Text(s@),
    {
        JsonValue { inner: text_value(s) }
    }

    /// The empty array.
    pub fn array() -> (v: Self)
        ensures
            v@ == Json::Array(Seq::empty()),
    {
        JsonValue { inner: array_value() }
    }

    /// The array of the strings.
    pub fn text_array(list: &Vec<String>) -> (v: Self)
        ensures
            v@ == text_list(texts(list@)),
    {
        let mut v = JsonValue::array();
        assert(v@->Array_0 =~= text_list(texts(list@).take(0))->Array_0);
        for i in 0..list.len()
            invariant
                v@ == text_list(texts(list@).take(i as int)),
        {
            v.push(JsonValue::text(list[i].as_str()));
            assert(v@->Array_0 =~= text_list(texts(list@).take(i + 1))->Array_0);
        }
        assert(texts(list@).take(list@.len() as int) =~= texts(list@));
        v
    }

    /// Adds an element to an array.
    pub fn push(&mut self, item: JsonValue)
        requires
            old(self)@ is Array,
        ensures
            final(self)@ == Json::Array(old(self)@->Array_0.push(item@)),
    {
        push_value(&mut self.inner, item.inner);
    }

    /// The object without members.
    pub fn object() -> (v: Self)
        ensures
            v@ == Json::Object(Map::empty()),
    {
        JsonValue { inner: object_value() }
    }

    /// Puts a member into an object, in place of one with the same key.
    pub fn insert(&mut self, key: &str, value: JsonValue)
        requires
            old(self)@ is Object,
        ensures
            final(self)@ == Json::Object(old(self)@->Object_0.insert(key@, value@)),
    {
        insert_value(&mut self.inner, key, value.inner);
    }

    /// Puts all members into an object, each in place of one with the same key.
    pub fn insert_all(&mut self, members: &Dict<String, JsonValue>)
        requires
            old(self)@ is Object,
        ensures
            final(self)@ == Json::Object(old(self)@->Object_0.union_prefer_right(members@)),
    {
        let ghost base = self@->Object_0;
        let ghost listing = members.listing();
        let n: usize = members.len();
        for i in 0..n
            invariant
                n == listing.len(),
                listing == members.listing(),
                distinct_keys(listing),
                self@ is Object,
                self@->Object_0 == base.union_prefer_right(map_of(listing.take(i as int))),
        {
            let e = members.entry(i);
            self.insert(e.0.as_str(), e.1.duplicate());
            proof {
                let before = listing.take(i as int);
                assert(listing.take(i + 1) =~= before.push(listing[i as int]));
                assert(!has_key(before, listing[i as int].0));
                crate::dict::lemma_map_of_push(before, listing[i as int].0, listing[i as int].1);
                assert(self@->Object_0 =~= base.union_prefer_right(map_of(listing.take(i + 1))));
            }
        }
        proof {
            assert(listing.take(n as int) =~= listing);
            if n == 0 {
                assert(map_of(listing) =~= Map::empty());
            }
        }
    }

    /// The member of an object with a key; nothing for a value of another kind.
    pub fn get(&self, key: &str) -> (r: Option<JsonValue>)
        ensures
            match r {
                Some(v) => self@ is Object && self@->Object_0.contains_key(key@)
                    && self@->Object_0[key@] == v@,
                None => self@ is Object ==> !self@->Object_0.contains_key(key@),
            },
    {
        match get_value(&self.inner, key) {
            Some(v) => Some(JsonValue { inner: copy_value(v) }),
            None => None,
        }
    }

    /// The keys of an object, each once; nothing for a value of another kind.
    pub fn keys(&self) -> (r: Option<Vec<String>>)
        ensures
            match r {
                Some(keys) => self@ is Object && texts(keys@).no_duplicates() && texts(
                    keys@,
                ).to_set() == self@->Object_0.dom(),
                None => !(self@ is Object),
            },
    {
        keys_value(&self.inner)
    }

    /// The characters of a string; nothing for a value of another kind.
    pub fn as_str(&self) -> (r: Option<&str>)
        ensures
            match r {
                Some(s) => self@ == Json::Text(s@),
                None => !(self@ is Text),
            },
    {
        str_value(&self.inner)
    }

    /// Whether two values say the same.
    pub fn same(&self, other: &JsonValue) -> (r: bool)
        ensures
            r == (self@ == other@),
    {
        same_value(&self.inner, &other.inner)
    }

    /// The canonical text of a value, where it has one.
    pub fn canonical(&self) -> (r: Option<String>)
        ensures
            match r {
                Some(s) => canonical_json(self@) == Some(s@),
                None => canonical_json(self@) is None,
            },
    {
        canonical_value(&self.inner)
    }
}

/// The array of the strings.
pub open spec fn text_list(list: Seq<Seq<char>>) -> Json {
    Json::Array(Seq::new(list.len(), |i: int| Json::Text(list[i])))
}

/// The number, or null.
pub open spec fn level_json(level: Option<u32>) -> Json {
    match level {
        Some(n) => Json::Integer(n as int),
        None => Json::Null,
    }
}

/// The object whose members are the numbers of a map.
pub open spec fn levels_json(levels: Map<Seq<char>, u32>) -> Json {
    Json::Object(levels.map_values(|n: u32| Json::Integer(n as int)))
}

/// Adds a text member where there is a text.
pub open spec fn with_text(
    members: Map<Seq<char>, Json>,
    key: Seq<char>,
    text: Option<Seq<char>>,
) -> Map<Seq<char>, Json> {
    match text {
        Some(t) => members.insert(key, Json::Text(t)),
        None => members,
    }
}

} // verus!
