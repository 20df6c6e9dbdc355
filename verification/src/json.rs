//! Structured data as the tools write it: a tree of objects, lists and
//! scalars, read from JSON text, from a property list or from TOML text.

use crate::seqs::{group_views, view_of};
use crate::text;
use vstd::prelude::*;

verus! {

broadcast use group_views;

/// A value read from JSON text, a property list or TOML text.
#[derive(Debug)]
pub enum Json {
    Null,
    Bool(bool),
    /// A number: how it is written, and its value where it is a natural number
    /// of 64 bits.
    Number(String, Option<u64>),
    Text(String),
    Array(Vec<Json>),
    /// The entries in the order in which they are walked.
    Object(Vec<(String, Json)>),
}

/// A structured value, as text and numbers.
pub enum JsonModel {
    Null,
    Bool(bool),
    Number(Seq<char>, Option<u64>),
    Text(Seq<char>),
    Array(Seq<JsonModel>),
    Object(Seq<(Seq<char>, JsonModel)>),
}

impl Json {
    /// The value, as text and numbers.
    pub open spec fn model(self) -> JsonModel
        decreases self,
    {
        match self {
            Json::Null => JsonModel::Null,
            Json::Bool(b) => JsonModel::Bool(b),
            Json::Number(t, n) => JsonModel::Number(t@, n),
            Json::Text(t) => JsonModel::Text(t@),
            Json::Array(v) => JsonModel::Array(
                Seq::new(
                    v@.len(),
                    |i: int|
                        if 0 <= i < v@.len() {
                            v@[i].model()
                        } else {
                            JsonModel::Null
                        },
                ),
            ),
            Json::Object(v) => JsonModel::Object(
                Seq::new(
                    v@.len(),
                    |i: int|
                        if 0 <= i < v@.len() {
                            (v@[i].0@, v@[i].1.model())
                        } else {
                            (Seq::empty(), JsonModel::Null)
                        },
                ),
            ),
        }
    }
}

impl View for Json {
    type V = JsonModel;

    open spec fn view(&self) -> JsonModel {
        self.model()
    }
}

// ---- looking things up ----

impl JsonModel {
    /// The entries of an object; none where it is something else.
    pub open spec fn entries(self) -> Seq<(Seq<char>, JsonModel)> {
        match self {
            JsonModel::Object(e) => e,
            _ => Seq::empty(),
        }
    }

    /// The elements of a list; none where it is something else.
    pub open spec fn items(self) -> Seq<JsonModel> {
        match self {
            JsonModel::Array(a) => a,
            _ => Seq::empty(),
        }
    }

    /// The value of an entry.
    pub open spec fn get(self, key: Seq<char>) -> Option<JsonModel> {
        find_entry(self.entries(), key)
    }

    /// The text, where it is one.
    pub open spec fn as_text(self) -> Option<Seq<char>> {
        match self {
            JsonModel::Text(t) => Some(t),
            _ => None,
        }
    }

    pub open spec fn as_bool(self) -> Option<bool> {
        match self {
            JsonModel::Bool(b) => Some(b),
            _ => None,
        }
    }

    pub open spec fn as_u64(self) -> Option<u64> {
        match self {
            JsonModel::Number(_, n) => n,
            _ => None,
        }
    }

    /// The text of an entry; nothing where there is none.
    pub open spec fn text_at(self, key: Seq<char>) -> Option<Seq<char>> {
        match self.get(key) {
            Some(v) => v.as_text(),
            None => None,
        }
    }

    /// The text of an entry; the empty text where there is none.
    pub open spec fn text_or_empty(self, key: Seq<char>) -> Seq<char> {
        match self.text_at(key) {
            Some(t) => t,
            None => Seq::empty(),
        }
    }

    /// The truth value of an entry.
    pub open spec fn bool_at(self, key: Seq<char>) -> Option<bool> {
        match self.get(key) {
            Some(v) => v.as_bool(),
            None => None,
        }
    }

    /// The number of an entry.
    pub open spec fn u64_at(self, key: Seq<char>) -> Option<u64> {
        match self.get(key) {
            Some(v) => v.as_u64(),
            None => None,
        }
    }

    /// The elements of the list of an entry.
    pub open spec fn items_at(self, key: Seq<char>) -> Seq<JsonModel> {
        match self.get(key) {
            Some(v) => v.items(),
            None => Seq::empty(),
        }
    }
}

/// The value of the first entry with a key.
pub open spec fn find_entry(entries: Seq<(Seq<char>, JsonModel)>, key: Seq<char>) -> Option<
    JsonModel,
>
    decreases entries.len(),
{
    if entries.len() == 0 {
        None
    } else if entries[0].0 == key {
        Some(entries[0].1)
    } else {
        find_entry(entries.skip(1), key)
    }
}

/// The views of the entries of an object.
pub open spec fn entry_models(v: Seq<(String, Json)>) -> Seq<(Seq<char>, JsonModel)> {
    v.map_values(|e: (String, Json)| (e.0@, e.1@))
}

/// The views of the elements of a list.
pub open spec fn item_models(v: Seq<Json>) -> Seq<JsonModel> {
    v.map_values(|e: Json| e@)
}

impl Json {
    /// The entries of an object, where it is one.
    pub fn as_object(&self) -> (r: Option<&Vec<(String, Json)>>)
        ensures
            match r {
                Some(v) => self@ == JsonModel::Object(entry_models(v@)) && self@.entries()
                    == entry_models(v@),
                None => !(self@ is Object) && self@.entries().len() == 0,
            },
    {
        match self {
            Json::Object(v) => {
                assert(self@.entries() =~= entry_models(v@));
                Some(v)
            },
            _ => None,
        }
    }

    /// The elements of a list, where it is one.
    pub fn as_array(&self) -> (r: Option<&Vec<Json>>)
        ensures
            match r {
                Some(v) => self@ == JsonModel::Array(item_models(v@)) && self@.items()
                    == item_models(v@),
                None => !(self@ is Array) && self@.items().len() == 0,
            },
    {
        match self {
            Json::Array(v) => {
                assert(self@.items() =~= item_models(v@));
                Some(v)
            },
            _ => None,
        }
    }

    /// The value of an entry of an object.
    pub fn get(&self, key: &str) -> (r: Option<&Json>)
        ensures
            match r {
                Some(v) => self@.get(key@) == Some(v@),
                None => self@.get(key@) is None,
            },
    {
        match self.as_object() {
            Some(v) => {
                let ghost e = entry_models(v@);
                let mut i: usize = 0;
                assert(e.skip(0) =~= e);
                while i < v.len()
                    invariant
                        i <= v@.len(),
                        e == entry_models(v@),
                        self@.entries() == e,
                        find_entry(e, key@) == find_entry(e.skip(i as int), key@),
                    decreases v@.len() - i,
                {
                    assert(e.skip(i as int)[0] == e[i as int]);
                    assert(e.skip(i as int).skip(1) =~= e.skip(i + 1));
                    if text::same(v[i].0.as_str(), key) {
                        return Some(&v[i].1);
                    }
                    i += 1;
                }
                None
            },
            None => None,
        }
    }

    /// The text, where it is one.
    pub fn as_str(&self) -> (r: Option<&str>)
        ensures
            match r {
                Some(t) => self@.as_text() == Some(t@),
                None => self@.as_text() is None,
            },
    {
        match self {
            Json::Text(t) => Some(t.as_str()),
            _ => None,
        }
    }

    /// The text of an entry; the empty text where there is none.
    pub fn string(&self, key: &str) -> (r: String)
        ensures
            r@ == self@.text_or_empty(key@),
    {
        match self.get(key) {
            Some(v) => match v.as_str() {
                Some(t) => t.to_owned(),
                None => String::new(),
            },
            None => String::new(),
        }
    }

    /// The text of an entry, where there is one.
    pub fn text(&self, key: &str) -> (r: Option<String>)
        ensures
            view_of(r) == self@.text_at(key@),
    {
        match self.get(key) {
            Some(v) => match v.as_str() {
                Some(t) => Some(t.to_owned()),
                None => None,
            },
            None => None,
        }
    }

    /// The truth value of an entry.
    pub fn bool(&self, key: &str) -> (r: Option<bool>)
        ensures
            r == self@.bool_at(key@),
    {
        match self.get(key) {
            Some(v) => match v {
                Json::Bool(b) => Some(*b),
                _ => None,
            },
            None => None,
        }
    }

    /// The number of an entry.
    pub fn u64(&self, key: &str) -> (r: Option<u64>)
        ensures
            r == self@.u64_at(key@),
    {
        match self.get(key) {
            Some(v) => match v {
                Json::Number(_, n) => *n,
                _ => None,
            },
            None => None,
        }
    }

    /// The list of an entry, where there is one.
    pub fn array(&self, key: &str) -> (r: Option<&Vec<Json>>)
        ensures
            match r {
                Some(v) => self@.items_at(key@) == item_models(v@),
                None => self@.items_at(key@).len() == 0,
            },
    {
        match self.get(key) {
            Some(v) => v.as_array(),
            None => None,
        }
    }
}

// ---- reading JSON ----

/// A parsed JSON document.
#[verifier::external_type_specification]
#[verifier::external_body]
pub struct ExJsonValue(serde_json::Value);

/// The tree that a parsed JSON document holds.
pub uninterp spec fn json_tree(v: serde_json::Value) -> JsonModel;

/// The tree that a JSON text writes; nothing where it is no JSON.
pub uninterp spec fn json_document(text: Seq<char>) -> Option<JsonModel>;

/// Calls `serde_json::from_str`, which reads one JSON document: what it makes
/// of a text depends on the text alone.
#[verifier::external_body]
fn read_json(text: &str) -> (r: Option<serde_json::Value>)
    ensures
        match r {
            Some(v) => json_document(text@) == Some(json_tree(v)),
            None => json_document(text@) is None,
        },
{
    serde_json::from_str::<serde_json::Value>(text).ok()
}

/// Copies a `serde_json::Value` into a tree of the library: the same scalars,
/// lists and entries in the same order, numbers as `Number` prints them and
/// with the value that `Number::as_u64` gives.
#[verifier::external_body]
fn copy_json(v: &serde_json::Value) -> (r: Json)
    ensures
        r@ == json_tree(*v),
{
    match v {
        serde_json::Value::Null => Json::Null,
        serde_json::Value::Bool(b) => Json::Bool(*b),
        serde_json::Value::Number(n) => Json::Number(n.to_string(), n.as_u64()),
        serde_json::Value::String(s) => Json::Text(s.clone()),
        serde_json::Value::Array(a) => Json::Array(a.iter().map(copy_json).collect()),
        serde_json::Value::Object(o) =>
            Json::Object(o.iter().map(|(k, v)| (k.clone(), copy_json(v))).collect()),
    }
}

/// Reads a JSON text.
pub fn parse_json(text: &str) -> (r: Option<Json>)
    ensures
        view_of(r) == json_document(text@),
{
    match read_json(text) {
        Some(v) => Some(copy_json(&v)),
        None => None,
    }
}

// ---- reading property lists ----

/// A parsed property list.
#[verifier::external_type_specification]
#[verifier::external_body]
pub struct ExPlistValue(plist::Value);

/// The tree that a parsed property list holds, as far as it is made of
/// dictionaries, arrays, strings and truth values.
pub uninterp spec fn plist_tree(v: plist::Value) -> JsonModel;

/// The tree that the bytes of a property list write; nothing where they are
/// none.
pub uninterp spec fn plist_document(bytes: Seq<u8>) -> Option<JsonModel>;

/// Calls `plist::Value::from_reader`, which reads a property list in any of
/// its encodings: what it makes of some bytes depends on the bytes alone.
#[verifier::external_body]
fn read_plist(bytes: &[u8]) -> (r: Option<plist::Value>)
    ensures
        match r {
            Some(v) => plist_document(bytes@) == Some(plist_tree(v)),
            None => plist_document(bytes@) is None,
        },
{
    plist::Value::from_reader(std::io::Cursor::new(bytes)).ok()
}

/// Copies a `plist::Value` into a tree of the library: dictionaries with their
/// entries in order, arrays, strings and truth values; the other scalars of a
/// property list become the empty value.
#[verifier::external_body]
fn copy_plist(v: &plist::Value) -> (r: Json)
    ensures
        r@ == plist_tree(*v),
{
    match v {
        plist::Value::Boolean(b) => Json::Bool(*b),
        plist::Value::String(s) => Json::Text(s.clone()),
        plist::Value::Array(a) => Json::Array(a.iter().map(copy_plist).collect()),
        plist::Value::Dictionary(d) =>
            Json::Object(d.iter().map(|(k, v)| (k.clone(), copy_plist(v))).collect()),
        _ => Json::Null,
    }
}

/// Reads the bytes of a property list.
pub fn parse_plist(bytes: &[u8]) -> (r: Option<Json>)
    ensures
        view_of(r) == plist_document(bytes@),
{
    match read_plist(bytes) {
        Some(v) => Some(copy_plist(&v)),
        None => None,
    }
}

// ---- reading TOML ----

/// A parsed TOML document.
#[verifier::external_type_specification]
#[verifier::external_body]
pub struct ExTomlValue(toml::Value);

/// The tree that a parsed TOML document holds, as far as it is made of tables,
/// arrays, strings and truth values.
pub uninterp spec fn toml_tree(v: toml::Value) -> JsonModel;

/// The tree that a TOML text writes; nothing where it is no TOML.
pub uninterp spec fn toml_document(text: Seq<char>) -> Option<JsonModel>;

/// Calls `toml::from_str`, which reads a TOML document: what it makes of a text
/// depends on the text alone.
#[verifier::external_body]
fn read_toml(text: &str) -> (r: Option<toml::Value>)
    ensures
        match r {
            Some(v) => toml_document(text@) == Some(toml_tree(v)),
            None => toml_document(text@) is None,
        },
{
    toml::from_str::<toml::Value>(text).ok()
}

/// Copies a `toml::Value` into a tree of the library: tables with their entries
/// in order, arrays, strings and truth values; numbers and moments become the
/// empty value.
#[verifier::external_body]
fn copy_toml(v: &toml::Value) -> (r: Json)
    ensures
        r@ == toml_tree(*v),
{
    match v {
        toml::Value::Boolean(b) => Json::Bool(*b),
        toml::Value::String(s) => Json::Text(s.clone()),
        toml::Value::Array(a) => Json::Array(a.iter().map(copy_toml).collect()),
        toml::Value::Table(t) =>
            Json::Object(t.iter().map(|(k, v)| (k.clone(), copy_toml(v))).collect()),
        _ => Json::Null,
    }
}

/// Reads a TOML text.
pub fn parse_toml(text: &str) -> (r: Option<Json>)
    ensures
        view_of(r) == toml_document(text@),
{
    match read_toml(text) {
        Some(v) => Some(copy_toml(&v)),
        None => None,
    }
}

/// The value of a key is that of its first entry; a list or a plain value has none.
pub proof fn law_first_entry_of_a_key_tells(e: Seq<(Seq<char>, JsonModel)>, key: Seq<char>, i: int)
    requires
        0 <= i < e.len(),
        e[i].0 == key,
        forall|j: int| 0 <= j < i ==> (#[trigger] e[j]).0 != key,
    ensures
        JsonModel::Object(e).get(key) == Some(e[i].1),
    decreases e.len(),
{
    if i > 0 {
        assert(e[0].0 != key);
        assert forall|j: int| 0 <= j < i - 1 implies (#[trigger] e.skip(1)[j]).0 != key by {
            assert(e.skip(1)[j] == e[j + 1]);
        }
        assert(e.skip(1)[i - 1] == e[i]);
        law_first_entry_of_a_key_tells(e.skip(1), key, i - 1);
        assert(JsonModel::Object(e.skip(1)).entries() == e.skip(1));
    }
    assert(JsonModel::Object(e).entries() == e);
}

proof fn lemma_no_entry(e: Seq<(Seq<char>, JsonModel)>, key: Seq<char>)
    requires
        forall|j: int| 0 <= j < e.len() ==> (#[trigger] e[j]).0 != key,
    ensures
        find_entry(e, key) is None,
    decreases e.len(),
{
    if e.len() > 0 {
        assert(e[0].0 != key);
        assert forall|j: int| 0 <= j < e.skip(1).len() implies (#[trigger] e.skip(1)[j]).0 != key by {
            assert(e.skip(1)[j] == e[j + 1]);
        }
        lemma_no_entry(e.skip(1), key);
    }
}

/// A key that no entry has leads nowhere.
pub proof fn law_unknown_keys_lead_nowhere(v: JsonModel, key: Seq<char>)
    requires
        forall|j: int| 0 <= j < v.entries().len() ==> (#[trigger] v.entries()[j]).0 != key,
    ensures
        v.get(key) is None,
        v.text_at(key) is None,
        v.bool_at(key) is None,
        v.u64_at(key) is None,
        v.text_or_empty(key).len() == 0,
        v.items_at(key).len() == 0,
{
    lemma_no_entry(v.entries(), key);
}

/// Values are read as what they are: texts as texts, truth values as truth values, and
/// numbers as numbers.
pub proof fn law_values_are_read_as_what_they_are(v: JsonModel, key: Seq<char>, x: JsonModel)
    requires
        v.get(key) == Some(x),
    ensures
        v.text_at(key) is Some <==> x is Text,
        x matches JsonModel::Text(t) ==> v.text_at(key) == Some(t) && v.text_or_empty(key) == t,
        v.bool_at(key) is Some <==> x is Bool,
        x matches JsonModel::Bool(b) ==> v.bool_at(key) == Some(b),
        x matches JsonModel::Number(_, n) ==> v.u64_at(key) == n,
        !(x is Number) ==> v.u64_at(key) is None,
        x matches JsonModel::Array(a) ==> v.items_at(key) == a,
        !(x is Array) ==> v.items_at(key).len() == 0,
{
}

} // verus!
