//! JSON values as the collector reads them.
//!
//! Text is parsed by `serde_json`; what it hands back is carried over into [`Json`], on which all
//! further reading works.

use vstd::prelude::*;

use crate::text::{opt_text, str_eq};

verus! {

/// A parsed JSON value.
///
/// Of a number only what is read of it is kept: its value as a `u64` and as an `i64`, where it
/// has one. An object keeps its entries in the order in which they are walked.
#[derive(Debug)]
pub enum Json {
    Null,
    Bool(bool),
    Number(JsonNumber),
    Text(String),
    Array(Vec<Json>),
    Object(Vec<(String, Json)>),
}

/// The integer readings of a JSON number.
#[derive(Debug, Clone, Copy)]
pub struct JsonNumber {
    pub unsigned: Option<u64>,
    pub signed: Option<i64>,
}

/// The mathematical value of a [`Json`].
#[verifier::ext_equal]
pub enum JsonView {
    Null,
    Bool(bool),
    Number(JsonNumber),
    Text(Seq<char>),
    Array(Seq<JsonView>),
    Object(Seq<(Seq<char>, JsonView)>),
}

/// The mathematical value of `j`.
pub open spec fn json_view(j: Json) -> JsonView
    decreases j,
{
    match j {
        Json::Null => JsonView::Null,
        Json::Bool(b) => JsonView::Bool(b),
        Json::Number(n) => JsonView::Number(n),
        Json::Text(s) => JsonView::Text(s@),
        Json::Array(items) => JsonView::Array(
            Seq::new(
                items@.len(),
                |i: int| if 0 <= i < items@.len() { json_view(items@[i]) } else { JsonView::Null },
            ),
        ),
        Json::Object(entries) => JsonView::Object(
            Seq::new(
                entries@.len(),
                |i: int|
                    if 0 <= i < entries@.len() {
                        (entries@[i].0@, json_view(entries@[i].1))
                    } else {
                        (Seq::empty(), JsonView::Null)
                    },
            ),
        ),
    }
}

impl View for Json {
    type V = JsonView;

    open spec fn view(&self) -> JsonView {
        json_view(*self)
    }
}

/// The mathematical values of the items of an array.
pub open spec fn item_views(items: Seq<Json>) -> Seq<JsonView> {
    items.map_values(|j: Json| j@)
}

/// The mathematical values of the entries of an object.
pub open spec fn entry_views(entries: Seq<(String, Json)>) -> Seq<(Seq<char>, JsonView)> {
    entries.map_values(|e: (String, Json)| (e.0@, e.1@))
}

/// The value of the first entry under `key`.
pub open spec fn entry_value(entries: Seq<(Seq<char>, JsonView)>, key: Seq<char>) -> Option<
    JsonView,
>
    decreases entries.len(),
{
    if entries.len() == 0 {
        None
    } else if entries[0].0 == key {
        Some(entries[0].1)
    } else {
        entry_value(entries.drop_first(), key)
    }
}

impl JsonView {
    /// The value under `key`, where this is an object that has one.
    pub open spec fn get(self, key: Seq<char>) -> Option<JsonView> {
        match self {
            JsonView::Object(entries) => entry_value(entries, key),
            _ => None,
        }
    }

    /// The text, where this is one.
    pub open spec fn as_str(self) -> Option<Seq<char>> {
        match self {
            JsonView::Text(s) => Some(s),
            _ => None,
        }
    }

    /// The number as a `u64`, where this is a number that has such a reading.
    pub open spec fn as_u64(self) -> Option<u64> {
        match self {
            JsonView::Number(n) => n.unsigned,
            _ => None,
        }
    }

    /// The number as an `i64`, where this is a number that has such a reading.
    pub open spec fn as_i64(self) -> Option<i64> {
        match self {
            JsonView::Number(n) => n.signed,
            _ => None,
        }
    }

    /// The truth value, where this is one.
    pub open spec fn as_bool(self) -> Option<bool> {
        match self {
            JsonView::Bool(b) => Some(b),
            _ => None,
        }
    }

    /// The items, where this is an array.
    pub open spec fn as_array(self) -> Option<Seq<JsonView>> {
        match self {
            JsonView::Array(items) => Some(items),
            _ => None,
        }
    }

    /// The entries, where this is an object.
    pub open spec fn as_object(self) -> Option<Seq<(Seq<char>, JsonView)>> {
        match self {
            JsonView::Object(entries) => Some(entries),
            _ => None,
        }
    }

    /// The text under `key`, where there is one.
    pub open spec fn str_at(self, key: Seq<char>) -> Option<Seq<char>> {
        match self.get(key) {
            Some(v) => v.as_str(),
            None => None,
        }
    }

    /// The text under `key`, empty where there is none.
    pub open spec fn text_at(self, key: Seq<char>) -> Seq<char> {
        match self.str_at(key) {
            Some(s) => s,
            None => Seq::empty(),
        }
    }

    /// The `u64` under `key`, zero where there is none.
    pub open spec fn u64_at(self, key: Seq<char>) -> u64 {
        match self.get(key) {
            Some(v) => match v.as_u64() {
                Some(n) => n,
                None => 0,
            },
            None => 0,
        }
    }

    /// The `i64` under `key`, where there is one.
    pub open spec fn i64_at(self, key: Seq<char>) -> Option<i64> {
        match self.get(key) {
            Some(v) => v.as_i64(),
            None => None,
        }
    }

    /// The truth value under `key`, false where there is none.
    pub open spec fn bool_at(self, key: Seq<char>) -> bool {
        match self.get(key) {
            Some(v) => v.as_bool() == Some(true),
            None => false,
        }
    }

    /// The items under `key`, where there is an array.
    pub open spec fn array_at(self, key: Seq<char>) -> Option<Seq<JsonView>> {
        match self.get(key) {
            Some(v) => v.as_array(),
            None => None,
        }
    }
}

/// A value of `serde_json`: a parsed document, or a part of one.
#[verifier::external_type_specification]
#[verifier::external_body]
pub struct ExValue(serde_json::Value);

/// What a `serde_json::Value` holds: its scalar, its items or its entries, all the way down.
pub uninterp spec fn value_view(v: serde_json::Value) -> JsonView;

/// What `serde_json::from_str::<serde_json::Value>` makes of a text: the document, or the message
/// of its error.
pub uninterp spec fn json_text(text: Seq<char>) -> Result<JsonView, Seq<char>>;

/// A `serde_json::Value` taken apart, one level deep.
enum Shape {
    Null,
    Bool(bool),
    Number(JsonNumber),
    Text(String),
    Array(Vec<serde_json::Value>),
    Object(Vec<(String, serde_json::Value)>),
}

/// Calls `serde_json::from_str` for a `serde_json::Value`, and `to_string` on its error.
///
/// Claims that the result depends on the text alone: the value holds, or the message is, what
/// [`json_text`] names.
#[verifier::external_body]
fn parse_value(text: &str) -> (r: Result<serde_json::Value, String>)
    ensures
        match r {
            Ok(v) => json_text(text@) == Ok::<JsonView, Seq<char>>(value_view(v)),
            Err(e) => json_text(text@) == Err::<JsonView, Seq<char>>(e@),
        },
{
    match serde_json::from_str::<serde_json::Value>(text) {
        Ok(v) => Ok(v),
        Err(e) => Err(e.to_string()),
    }
}

/// Tells the variants of `serde_json::Value` apart and hands out what they carry.
///
/// A number gives `Number::as_u64` and `Number::as_i64`, an object its entries in the order of
/// `Map::into_iter`. Claims that this is what the value holds, in the sense of [`value_view`].
#[verifier::external_body]
fn shape_of(v: serde_json::Value) -> (s: Shape)
    ensures
        match s {
            Shape::Null => value_view(v) == JsonView::Null,
            Shape::Bool(b) => value_view(v) == JsonView::Bool(b),
            Shape::Number(n) => value_view(v) == JsonView::Number(n),
            Shape::Text(t) => value_view(v) == JsonView::Text(t@),
            Shape::Array(items) => value_view(v) == JsonView::Array(
                items@.map_values(|x: serde_json::Value| value_view(x)),
            ),
            Shape::Object(entries) => value_view(v) == JsonView::Object(
                entries@.map_values(|e: (String, serde_json::Value)| (e.0@, value_view(e.1))),
            ),
        },
{
    match v {
        serde_json::Value::Null => Shape::Null,
        serde_json::Value::Bool(b) => Shape::Bool(b),
        serde_json::Value::Number(n) => Shape::Number(
            JsonNumber { unsigned: n.as_u64(), signed: n.as_i64() },
        ),
        serde_json::Value::String(t) => Shape::Text(t),
        serde_json::Value::Array(items) => Shape::Array(items),
        serde_json::Value::Object(entries) => Shape::Object(entries.into_iter().collect()),
    }
}

/// Carries a value of `serde_json` over, at any depth.
pub fn from_value(v: serde_json::Value) -> (j: Json)
    ensures
        j@ == value_view(v),
    decreases value_view(v),
{
    match shape_of(v) {
        Shape::Null => Json::Null,
        Shape::Bool(b) => Json::Bool(b),
        Shape::Number(n) => Json::Number(n),
        Shape::Text(t) => Json::Text(t),
        Shape::Array(items) => {
            let mut out: Vec<Json> = Vec::new();
            let ghost s = value_view(v)->Array_0;
            for x in it: items
                invariant
                    value_view(v) == JsonView::Array(s),
                    it.seq() == items@,
                    s.len() == items@.len(),
                    forall|i: int| 0 <= i < s.len() ==> s[i] == value_view(#[trigger] items@[i]),
                    out@.len() == it.index(),
                    forall|i: int| 0 <= i < out@.len() ==> (#[trigger] out@[i])@ == s[i],
            {
                proof {
                    assert(decreases_to!(value_view(v) => value_view(v)->Array_0));
                    assert(decreases_to!(s => s[it.index()]));
                }
                out.push(from_value(x));
            }
            let j = Json::Array(out);
            proof {
                assert(j@->Array_0 =~= s);
            }
            j
        },
        Shape::Object(entries) => {
            let mut out: Vec<(String, Json)> = Vec::new();
            let ghost s = value_view(v)->Object_0;
            for e in it: entries
                invariant
                    value_view(v) == JsonView::Object(s),
                    it.seq() == entries@,
                    s.len() == entries@.len(),
                    forall|i: int|
                        0 <= i < s.len() ==> s[i] == (
                            (#[trigger] entries@[i]).0@,
                            value_view(entries@[i].1),
                        ),
                    out@.len() == it.index(),
                    forall|i: int|
                        0 <= i < out@.len() ==> ((#[trigger] out@[i]).0@, out@[i].1@) == s[i],
            {
                proof {
                    assert(decreases_to!(value_view(v) => value_view(v)->Object_0));
                    assert(decreases_to!(s => s[it.index()]));
                    assert(decreases_to!(s[it.index()] => s[it.index()].1));
                }
                let (key, value) = e;
                out.push((key, from_value(value)));
            }
            let j = Json::Object(out);
            proof {
                assert(j@->Object_0 =~= s);
            }
            j
        },
    }
}

/// Parses a JSON document; the error is the parser's message.
pub fn parse_json(text: &str) -> (r: Result<Json, String>)
    ensures
        match r {
            Ok(j) => json_text(text@) == Ok::<JsonView, Seq<char>>(j@),
            Err(e) => json_text(text@) == Err::<JsonView, Seq<char>>(e@),
        },
{
    match parse_value(text) {
        Ok(v) => Ok(from_value(v)),
        Err(e) => Err(e),
    }
}

/// The view of an optional document.
pub open spec fn opt_json(v: Option<&Json>) -> Option<JsonView> {
    match v {
        Some(j) => Some(j@),
        None => None,
    }
}

/// The document of an optional text, where it is JSON.
pub open spec fn parsed(text: Option<Seq<char>>) -> Option<JsonView> {
    match text {
        Some(t) => match json_text(t) {
            Ok(v) => Some(v),
            Err(_) => None,
        },
        None => None,
    }
}

/// The document of an optional text, where it is JSON.
pub fn parse_optional(text: Option<&str>) -> (r: Option<Json>)
    ensures
        match r {
            Some(j) => parsed(opt_text(text)) == Some(j@),
            None => parsed(opt_text(text)) is None,
        },
{
    match text {
        Some(t) => match parse_json(t) {
            Ok(j) => Some(j),
            Err(_) => None,
        },
        None => None,
    }
}

/// The document of an optional text; null where the text is absent or no JSON.
pub open spec fn document_of(text: Option<Seq<char>>) -> JsonView {
    match parsed(text) {
        Some(v) => v,
        None => JsonView::Null,
    }
}

/// The document of a file whose contents are `text`; null where it could not be read or is no
/// JSON.
pub fn read_json(text: Option<&str>) -> (j: Json)
    ensures
        j@ == document_of(opt_text(text)),
{
    match parse_optional(text) {
        Some(j) => j,
        None => Json::Null,
    }
}

impl Json {
    /// The value under `key`, where this is an object that has one.
    pub fn get(&self, key: &str) -> (r: Option<&Json>)
        ensures
            match r {
                Some(j) => self@.get(key@) == Some(j@),
                None => self@.get(key@) is None,
            },
    {
        match self {
            Json::Object(entries) => {
                let ghost s = self@->Object_0;
                proof {
                    assert(s =~= entry_views(entries@));
                    assert(s.skip(0) =~= s);
                }
                for i in 0..entries.len()
                    invariant
                        self@ == JsonView::Object(s),
                        s == entry_views(entries@),
                        entry_value(s, key@) == entry_value(s.skip(i as int), key@),
                {
                    if str_eq(entries[i].0.as_str(), key) {
                        return Some(&entries[i].1);
                    }
                    proof {
                        assert(s.skip(i as int).drop_first() =~= s.skip(i + 1));
                    }
                }
                None
            },
            _ => None,
        }
    }

    /// The text, where this is one.
    pub fn as_str(&self) -> (r: Option<&str>)
        ensures
            match r {
                Some(s) => self@.as_str() == Some(s@),
                None => self@.as_str() is None,
            },
    {
        match self {
            Json::Text(s) => Some(s.as_str()),
            _ => None,
        }
    }

    /// The number as a `u64`, where this is a number that has such a reading.
    pub fn as_u64(&self) -> (r: Option<u64>)
        ensures
            r == self@.as_u64(),
    {
        match self {
            Json::Number(n) => n.unsigned,
            _ => None,
        }
    }

    /// The number as an `i64`, where this is a number that has such a reading.
    pub fn as_i64(&self) -> (r: Option<i64>)
        ensures
            r == self@.as_i64(),
    {
        match self {
            Json::Number(n) => n.signed,
            _ => None,
        }
    }

    /// The truth value, where this is one.
    pub fn as_bool(&self) -> (r: Option<bool>)
        ensures
            r == self@.as_bool(),
    {
        match self {
            Json::Bool(b) => Some(*b),
            _ => None,
        }
    }

    /// The items, where this is an array.
    pub fn as_array(&self) -> (r: Option<&Vec<Json>>)
        ensures
            match r {
                Some(items) => self@.as_array() == Some(item_views(items@)),
                None => self@.as_array() is None,
            },
    {
        match self {
            Json::Array(items) => {
                proof {
                    assert(self@->Array_0 =~= item_views(items@));
                }
                Some(items)
            },
            _ => None,
        }
    }

    /// The entries, where this is an object.
    pub fn as_object(&self) -> (r: Option<&Vec<(String, Json)>>)
        ensures
            match r {
                Some(entries) => self@.as_object() == Some(entry_views(entries@)),
                None => self@.as_object() is None,
            },
    {
        match self {
            Json::Object(entries) => {
                proof {
                    assert(self@->Object_0 =~= entry_views(entries@));
                }
                Some(entries)
            },
            _ => None,
        }
    }

    /// Whether this is null.
    pub fn is_null(&self) -> (r: bool)
        ensures
            r == (self@ is Null),
    {
        match self {
            Json::Null => true,
            _ => false,
        }
    }

    /// The text under `key`, where there is one.
    pub fn str_at(&self, key: &str) -> (r: Option<&str>)
        ensures
            match r {
                Some(s) => self@.str_at(key@) == Some(s@),
                None => self@.str_at(key@) is None,
            },
    {
        match self.get(key) {
            Some(v) => v.as_str(),
            None => None,
        }
    }

    /// The text under `key`, empty where there is none.
    pub fn text_at(&self, key: &str) -> (r: String)
        ensures
            r@ == self@.text_at(key@),
    {
        match self.str_at(key) {
            Some(s) => s.to_owned(),
            None => String::new(),
        }
    }

    /// The `u64` under `key`, zero where there is none.
    pub fn u64_at(&self, key: &str) -> (r: u64)
        ensures
            r == self@.u64_at(key@),
    {
        match self.get(key) {
            Some(v) => match v.as_u64() {
                Some(n) => n,
                None => 0,
            },
            None => 0,
        }
    }

    /// The `i64` under `key`, where there is one.
    pub fn i64_at(&self, key: &str) -> (r: Option<i64>)
        ensures
            r == self@.i64_at(key@),
    {
        match self.get(key) {
            Some(v) => v.as_i64(),
            None => None,
        }
    }

    /// The truth value under `key`, false where there is none.
    pub fn bool_at(&self, key: &str) -> (r: bool)
        ensures
            r == self@.bool_at(key@),
    {
        match self.get(key) {
            Some(v) => match v.as_bool() {
                Some(b) => b,
                None => false,
            },
            None => false,
        }
    }

    /// The items under `key`, where there is an array.
    pub fn array_at(&self, key: &str) -> (r: Option<&Vec<Json>>)
        ensures
            match r {
                Some(items) => self@.array_at(key@) == Some(item_views(items@)),
                None => self@.array_at(key@) is None,
            },
    {
        match self.get(key) {
            Some(v) => v.as_array(),
            None => None,
        }
    }
}

/// An object gives under a key the value of its first entry with that key, and nothing where no
/// entry has it; what is no object gives nothing.
pub proof fn entries_are_found_under_their_keys(v: JsonView, key: Seq<char>)
    ensures
        match v {
            JsonView::Object(entries) => match v.get(key) {
                Some(value) => exists|i: int|
                    0 <= i < entries.len() && (#[trigger] entries[i]).0 == key && entries[i].1
                        == value && forall|j: int|
                        0 <= j < i ==> (#[trigger] entries[j]).0 != key,
                None => forall|i: int| 0 <= i < entries.len() ==> (#[trigger] entries[i]).0 != key,
            },
            _ => v.get(key) is None,
        },
{
    if let JsonView::Object(entries) = v {
        assert(entries.skip(0) =~= entries);
        lemma_first_entry(entries, key, 0);
    }
}

/// Where no two entries of an object have the same key, each is found under its own.
pub proof fn distinct_entries_are_all_found(entries: Seq<(Seq<char>, JsonView)>, i: int)
    requires
        0 <= i < entries.len(),
        forall|a: int, b: int|
            0 <= a < b < entries.len() ==> (#[trigger] entries[a]).0 != (#[trigger] entries[b]).0,
    ensures
        JsonView::Object(entries).get(entries[i].0) == Some(entries[i].1),
{
    entries_are_found_under_their_keys(JsonView::Object(entries), entries[i].0);
}

proof fn lemma_first_entry(entries: Seq<(Seq<char>, JsonView)>, key: Seq<char>, k: int)
    requires
        0 <= k <= entries.len(),
        forall|j: int| 0 <= j < k ==> (#[trigger] entries[j]).0 != key,
    ensures
        match entry_value(entries.skip(k), key) {
            Some(value) => exists|i: int|
                0 <= i < entries.len() && (#[trigger] entries[i]).0 == key && entries[i].1 == value
                    && forall|j: int| 0 <= j < i ==> (#[trigger] entries[j]).0 != key,
            None => forall|i: int| 0 <= i < entries.len() ==> (#[trigger] entries[i]).0 != key,
        },
    decreases entries.len() - k,
{
    if k < entries.len() {
        let rest = entries.skip(k);
        assert(rest[0] == entries[k]);
        if entries[k].0 != key {
            assert(rest.drop_first() =~= entries.skip(k + 1));
            lemma_first_entry(entries, key, k + 1);
        }
    }
}

/// Whether `s` is the text that an object gives under `key`, empty where it gives none.
pub open spec fn is_text_at(d: JsonView, key: Seq<char>, s: Seq<char>) -> bool {
    match d.get(key) {
        Some(JsonView::Text(t)) => s == t,
        _ => s.len() == 0,
    }
}

/// Whether `n` is the count that an object gives under `key`: the number there, where it is one
/// that 64 bits hold unsigned, else zero.
pub open spec fn is_count_at(d: JsonView, key: Seq<char>, n: u64) -> bool {
    match d.get(key) {
        Some(JsonView::Number(x)) => match x.unsigned {
            Some(count) => n == count,
            None => n == 0,
        },
        _ => n == 0,
    }
}

/// What is read under a key is what the value there holds, where it is of the kind that is asked
/// for; a text is else empty, a count zero and a truth value false.
pub proof fn readings_are_those_of_the_value(v: JsonView, key: Seq<char>)
    ensures
        v.str_at(key) == (match v.get(key) {
            Some(JsonView::Text(s)) => Some(s),
            _ => None,
        }),
        v.text_at(key) == (match v.get(key) {
            Some(JsonView::Text(s)) => s,
            _ => Seq::empty(),
        }),
        v.u64_at(key) == (match v.get(key) {
            Some(JsonView::Number(n)) => match n.unsigned {
                Some(x) => x,
                None => 0,
            },
            _ => 0,
        }),
        v.i64_at(key) == (match v.get(key) {
            Some(JsonView::Number(n)) => n.signed,
            _ => None,
        }),
        v.bool_at(key) == (v.get(key) == Some(JsonView::Bool(true))),
        v.array_at(key) == (match v.get(key) {
            Some(JsonView::Array(items)) => Some(items),
            _ => None,
        }),
{
}

/// What is read of a value itself is what it holds, where it is of the kind that is asked for.
pub proof fn scalars_are_read_as_they_are(v: JsonView)
    ensures
        forall|s: Seq<char>| v.as_str() == Some(s) <==> v == JsonView::Text(s),
        forall|b: bool| v.as_bool() == Some(b) <==> v == JsonView::Bool(b),
        forall|items: Seq<JsonView>| v.as_array() == Some(items) <==> v == JsonView::Array(items),
        forall|entries: Seq<(Seq<char>, JsonView)>|
            v.as_object() == Some(entries) <==> v == JsonView::Object(entries),
        v.as_u64() == (match v {
            JsonView::Number(n) => n.unsigned,
            _ => None,
        }),
        v.as_i64() == (match v {
            JsonView::Number(n) => n.signed,
            _ => None,
        }),
{
}

/// The mathematical value of a document has its shape, and its parts are those of the document.
pub proof fn views_keep_the_shape(j: Json)
    ensures
        match j {
            Json::Null => j@ == JsonView::Null,
            Json::Bool(b) => j@ == JsonView::Bool(b),
            Json::Number(n) => j@ == JsonView::Number(n),
            Json::Text(s) => j@ == JsonView::Text(s@),
            Json::Array(items) => match j@ {
                JsonView::Array(parts) => parts.len() == items@.len() && forall|i: int|
                    0 <= i < parts.len() ==> #[trigger] parts[i] == items@[i]@,
                _ => false,
            },
            Json::Object(entries) => match j@ {
                JsonView::Object(parts) => parts.len() == entries@.len() && forall|i: int|
                    0 <= i < parts.len() ==> #[trigger] parts[i] == (
                        entries@[i].0@,
                        entries@[i].1@,
                    ),
                _ => false,
            },
        },
{
}

/// A text is read as the document that the parser makes of it, and as nothing, or null, where it
/// is absent or the parser refuses it.
pub proof fn documents_are_those_of_the_parser(text: Option<Seq<char>>)
    ensures
        forall|v: JsonView| #[trigger]
            accepted(text, v) <==> parsed(text) == Some(v),
        parsed(text) is Some ==> document_of(text) == parsed(text)->0,
        parsed(text) is None ==> document_of(text) == JsonView::Null,
{
}

/// Whether there is a text of which the parser makes the document `v`.
pub open spec fn accepted(text: Option<Seq<char>>, v: JsonView) -> bool {
    text is Some && json_text(text->0) == Ok::<JsonView, Seq<char>>(v)
}

/// The views of optional documents, of items and of entries are those of the documents.
pub proof fn optional_views_are_those_of_the_document(
    j: Json,
    items: Seq<Json>,
    entries: Seq<(String, Json)>,
)
    ensures
        opt_json(Some(&j)) == Some(j@),
        opt_json(None) is None,
        item_views(items).len() == items.len(),
        forall|i: int| 0 <= i < items.len() ==> #[trigger] item_views(items)[i] == items[i]@,
        entry_views(entries).len() == entries.len(),
        forall|i: int|
            0 <= i < entries.len() ==> #[trigger] entry_views(entries)[i] == (
                entries[i].0@,
                entries[i].1@,
            ),
{
}

} // verus!
