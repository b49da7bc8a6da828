//! JSON documents as plain values, and what each of them says.
use vstd::prelude::*;

use crate::text;

pub mod codec;
pub mod laws;

verus! {

/// A number other than an integer from zero up, carried through unread in the
/// form the JSON library gave it.
#[derive(Debug)]
pub struct CarriedNumber {
    value: serde_json::Value,
}

/// A JSON document.
#[derive(Debug)]
pub enum Json {
    Null,
    Bool(bool),
    /// An integer from zero up.
    Unsigned(u64),
    /// Any other number.
    Number(CarriedNumber),
    Text(String),
    Array(Vec<Json>),
    Object(Fields),
}

/// The fields of a JSON object. Of two entries with one name the later counts.
#[derive(Debug)]
pub struct Fields {
    entries: Vec<(String, Json)>,
}

/// What a JSON document says, apart from how it is held.
pub enum JsonModel {
    Null,
    Bool(bool),
    Unsigned(u64),
    Number(serde_json::Value),
    Text(Seq<char>),
    Array(Seq<JsonModel>),
    Object(Map<Seq<char>, JsonModel>),
}

impl JsonModel {
    /// The value of the field `key` of an object.
    pub open spec fn field(self, key: Seq<char>) -> Option<JsonModel> {
        match self {
            JsonModel::Object(fields) => if fields.dom().contains(key) {
                Some(fields[key])
            } else {
                None
            },
            _ => None,
        }
    }

    /// The field `inner` of the field `outer`.
    pub open spec fn nested(self, outer: Seq<char>, inner: Seq<char>) -> Option<JsonModel> {
        match self.field(outer) {
            Some(value) => value.field(inner),
            None => None,
        }
    }

    pub open spec fn as_text(self) -> Option<Seq<char>> {
        match self {
            JsonModel::Text(text) => Some(text),
            _ => None,
        }
    }

    pub open spec fn as_array(self) -> Option<Seq<JsonModel>> {
        match self {
            JsonModel::Array(items) => Some(items),
            _ => None,
        }
    }

    pub open spec fn as_bool(self) -> Option<bool> {
        match self {
            JsonModel::Bool(b) => Some(b),
            _ => None,
        }
    }

    pub open spec fn as_u64(self) -> Option<u64> {
        match self {
            JsonModel::Unsigned(n) => Some(n),
            _ => None,
        }
    }

    /// The field `key`, where it is text.
    pub open spec fn text_field(self, key: Seq<char>) -> Option<Seq<char>> {
        match self.field(key) {
            Some(value) => value.as_text(),
            None => None,
        }
    }

    /// The field `key`, where it is a list.
    pub open spec fn array_field(self, key: Seq<char>) -> Option<Seq<JsonModel>> {
        match self.field(key) {
            Some(value) => value.as_array(),
            None => None,
        }
    }

    /// The field `key`, where it is true or false.
    pub open spec fn bool_field(self, key: Seq<char>) -> Option<bool> {
        match self.field(key) {
            Some(value) => value.as_bool(),
            None => None,
        }
    }

    /// The field `key`, where it is an integer from zero up.
    pub open spec fn u64_field(self, key: Seq<char>) -> Option<u64> {
        match self.field(key) {
            Some(value) => value.as_u64(),
            None => None,
        }
    }

    /// The field `inner` of the field `outer`, where it is text.
    pub open spec fn nested_text(self, outer: Seq<char>, inner: Seq<char>) -> Option<Seq<char>> {
        match self.nested(outer, inner) {
            Some(value) => value.as_text(),
            None => None,
        }
    }

    /// The field `inner` of the field `outer`, where it is an integer from zero up.
    pub open spec fn nested_u64(self, outer: Seq<char>, inner: Seq<char>) -> Option<u64> {
        match self.nested(outer, inner) {
            Some(value) => value.as_u64(),
            None => None,
        }
    }
}

impl CarriedNumber {
    /// The number in the form of the JSON library.
    pub closed spec fn carried(self) -> serde_json::Value {
        self.value
    }

    /// What is carried is such a number.
    #[verifier::type_invariant]
    spec fn holds_number(self) -> bool {
        codec::contents(self.value) == JsonModel::Number(self.value)
    }
}

impl Json {
    /// What the document says.
    pub open spec fn model(self) -> JsonModel
        decreases self,
    {
        match self {
            Json::Null => JsonModel::Null,
            Json::Bool(b) => JsonModel::Bool(b),
            Json::Unsigned(n) => JsonModel::Unsigned(n),
            Json::Number(number) => JsonModel::Number(number.carried()),
            Json::Text(text) => JsonModel::Text(text@),
            Json::Array(items) => JsonModel::Array(models(items@)),
            Json::Object(fields) => JsonModel::Object(fields.model()),
        }
    }
}

impl Fields {
    /// What the fields say.
    pub closed spec fn model(self) -> Map<Seq<char>, JsonModel>
        decreases self,
    {
        entries_model(self.entries@)
    }
}

/// What each document of a list says.
pub open spec fn models(items: Seq<Json>) -> Seq<JsonModel>
    decreases items,
{
    Seq::new(
        items.len(),
        |i: int|
            if 0 <= i < items.len() {
                items[i].model()
            } else {
                JsonModel::Null
            },
    )
}

spec fn entries_model(entries: Seq<(String, Json)>) -> Map<Seq<char>, JsonModel>
    decreases entries,
{
    if entries.len() == 0 {
        Map::empty()
    } else {
        entries_model(entries.drop_last()).insert(entries.last().0@, entries.last().1.model())
    }
}

impl View for Json {
    type V = JsonModel;

    open spec fn view(&self) -> JsonModel {
        self.model()
    }
}

impl View for Fields {
    type V = Map<Seq<char>, JsonModel>;

    open spec fn view(&self) -> Map<Seq<char>, JsonModel> {
        self.model()
    }
}

/// What an optional borrowed document says.
pub open spec fn json_ref(value: Option<&Json>) -> Option<JsonModel> {
    match value {
        Some(json) => Some(json@),
        None => None,
    }
}

/// What an optional document says.
pub open spec fn json_opt(value: Option<Json>) -> Option<JsonModel> {
    match value {
        Some(json) => Some(json@),
        None => None,
    }
}

/// What an optional borrowed list says.
pub open spec fn array_ref(value: Option<&Vec<Json>>) -> Option<Seq<JsonModel>> {
    match value {
        Some(items) => Some(models(items@)),
        None => None,
    }
}

/// The documents of a list with one more behind them.
pub proof fn lemma_models_push(items: Seq<Json>, item: Json)
    ensures
        models(items.push(item)) == models(items).push(item@),
{
    assert(models(items.push(item)) =~= models(items).push(item@));
}

/// Entries behind `n` that do not bear the name `key` do not bear on it.
proof fn lemma_entries_behind(entries: Seq<(String, Json)>, n: int, key: Seq<char>)
    requires
        0 <= n <= entries.len(),
        forall|j: int| n <= j < entries.len() ==> (#[trigger] entries[j]).0@ != key,
    ensures
        entries_model(entries).dom().contains(key) == entries_model(
            entries.take(n),
        ).dom().contains(key),
        entries_model(entries)[key] == entries_model(entries.take(n))[key],
    decreases entries.len(),
{
    if n < entries.len() {
        let rest = entries.drop_last();
        assert(entries.last() == entries[entries.len() - 1]);
        assert forall|j: int| n <= j < rest.len() implies (#[trigger] rest[j]).0@ != key by {
            assert(rest[j] == entries[j]);
        }
        lemma_entries_behind(rest, n, key);
        assert(rest.take(n) =~= entries.take(n));
    } else {
        assert(entries.take(n) =~= entries);
    }
}

/// Writing a new value into the last entry of a name changes that name alone.
proof fn lemma_entries_update(entries: Seq<(String, Json)>, n: int, entry: (String, Json))
    requires
        0 <= n < entries.len(),
        entries[n].0@ == entry.0@,
        forall|j: int| n < j < entries.len() ==> (#[trigger] entries[j]).0@ != entry.0@,
    ensures
        entries_model(entries.update(n, entry)) == entries_model(entries).insert(
            entry.0@,
            entry.1.model(),
        ),
    decreases entries.len(),
{
    let new = entries.update(n, entry);
    let rest = entries.drop_last();
    if n == entries.len() - 1 {
        assert(new.drop_last() =~= rest);
        assert(entries_model(new) =~= entries_model(entries).insert(entry.0@, entry.1.model()));
    } else {
        assert forall|j: int| n < j < rest.len() implies (#[trigger] rest[j]).0@ != entry.0@ by {
            assert(rest[j] == entries[j]);
        }
        lemma_entries_update(rest, n, entry);
        assert(new.drop_last() =~= rest.update(n, entry));
        assert(new.last() == entries.last());
        assert(entries.last() == entries[entries.len() - 1]);
        assert(entries_model(new) =~= entries_model(entries).insert(entry.0@, entry.1.model()));
    }
}

impl Fields {
    /// No fields.
    pub fn new() -> (r: Fields)
        ensures
            r@ == Map::<Seq<char>, JsonModel>::empty(),
    {
        Fields { entries: Vec::new() }
    }

    /// The place behind the last entry of that name, or zero.
    fn place(&self, key: &str) -> (r: usize)
        ensures
            r <= self.entries@.len(),
            r > 0 ==> self.entries@[r - 1].0@ == key@,
            forall|j: int| r <= j < self.entries@.len() ==> (#[trigger] self.entries@[j]).0@ != key@,
    {
        let mut n: usize = self.entries.len();
        while n > 0
            invariant
                n <= self.entries@.len(),
                forall|j: int|
                    n <= j < self.entries@.len() ==> (#[trigger] self.entries@[j]).0@ != key@,
            decreases n,
        {
            if text::same_text(self.entries[n - 1].0.as_str(), key) {
                return n;
            }
            n = n - 1;
        }
        0
    }

    /// The value of the field `key`.
    pub fn get(&self, key: &str) -> (r: Option<&Json>)
        ensures
            json_ref(r) == JsonModel::Object(self@).field(key@),
    {
        let n: usize = self.place(key);
        proof {
            lemma_entries_behind(self.entries@, n as int, key@);
        }
        if n == 0 {
            None
        } else {
            assert(self.entries@.take(n as int).last() == self.entries@[n - 1]);
            Some(&self.entries[n - 1].1)
        }
    }

    /// Gives the field `key` a value and returns the one it had.
    pub fn insert(&mut self, key: &str, value: Json) -> (r: Option<Json>)
        ensures
            final(self)@ == old(self)@.insert(key@, value@),
            json_opt(r) == JsonModel::Object(old(self)@).field(key@),
    {
        let n: usize = self.place(key);
        proof {
            lemma_entries_behind(self.entries@, n as int, key@);
        }
        let mut entry = (key.to_owned(), value);
        if n == 0 {
            let ghost before = self.entries@;
            self.entries.push(entry);
            assert(self.entries@.drop_last() =~= before);
            None
        } else {
            assert(self.entries@.take(n as int).last() == self.entries@[n - 1]);
            proof {
                lemma_entries_update(self.entries@, n - 1, entry);
            }
            std::mem::swap(&mut self.entries[n - 1], &mut entry);
            Some(entry.1)
        }
    }

    /// These fields and the field `key` with a value.
    pub fn with(self, key: &str, value: Json) -> (r: Fields)
        ensures
            r@ == self@.insert(key@, value@),
    {
        let mut out = self;
        let _ = out.insert(key, value);
        out
    }
}

impl Clone for CarriedNumber {
    fn clone(&self) -> (r: CarriedNumber)
        ensures
            r == *self,
    {
        proof {
            use_type_invariant(self);
        }
        CarriedNumber { value: self.value.clone() }
    }
}

/// The documents of a list, each cloned.
pub fn clone_all(items: &Vec<Json>) -> (r: Vec<Json>)
    ensures
        models(r@) == models(items@),
    decreases items,
{
    let mut out: Vec<Json> = Vec::new();
    let mut i: usize = 0;
    while i < items.len()
        invariant
            i <= items.len(),
            out.len() == i,
            forall|j: int| 0 <= j < i ==> (#[trigger] out@[j]).model() == items@[j].model(),
        decreases items.len() - i,
    {
        assert(decreases_to!(items => items@[i as int]));
        out.push(items[i].clone());
        i = i + 1;
    }
    assert(models(out@) =~= models(items@));
    out
}

impl Clone for Json {
    fn clone(&self) -> (r: Json)
        ensures
            r@ == self@,
        decreases self,
    {
        match self {
            Json::Null => Json::Null,
            Json::Bool(b) => Json::Bool(*b),
            Json::Unsigned(n) => Json::Unsigned(*n),
            Json::Number(number) => Json::Number(number.clone()),
            Json::Text(text) => Json::Text(text.clone()),
            Json::Array(items) => Json::Array(clone_all(items)),
            Json::Object(fields) => Json::Object(fields.clone()),
        }
    }
}

impl Clone for Fields {
    fn clone(&self) -> (r: Fields)
        ensures
            r@ == self@,
        decreases self,
    {
        let mut out: Vec<(String, Json)> = Vec::new();
        let mut i: usize = 0;
        assert(self.entries@.take(0) =~= Seq::<(String, Json)>::empty());
        while i < self.entries.len()
            invariant
                i <= self.entries.len(),
                entries_model(out@) == entries_model(self.entries@.take(i as int)),
            decreases self.entries.len() - i,
        {
            let ghost before = out@;
            out.push((self.entries[i].0.clone(), self.entries[i].1.clone()));
            assert(out@.drop_last() =~= before);
            assert(self.entries@.take(i + 1).drop_last() =~= self.entries@.take(i as int));
            i = i + 1;
        }
        assert(self.entries@.take(self.entries@.len() as int) =~= self.entries@);
        Fields { entries: out }
    }
}

impl Json {
    /// A piece of text.
    pub fn text(text: &str) -> (r: Json)
        ensures
            r@ == JsonModel::Text(text@),
    {
        Json::Text(text.to_owned())
    }

    /// The value of the field `key` of an object.
    pub fn get(&self, key: &str) -> (r: Option<&Json>)
        ensures
            json_ref(r) == self@.field(key@),
    {
        match self {
            Json::Object(fields) => fields.get(key),
            _ => None,
        }
    }

    /// The field `inner` of the field `outer`.
    pub fn nested(&self, outer: &str, inner: &str) -> (r: Option<&Json>)
        ensures
            json_ref(r) == self@.nested(outer@, inner@),
    {
        match self.get(outer) {
            Some(value) => value.get(inner),
            None => None,
        }
    }

    /// The text, where the document is text.
    pub fn as_str(&self) -> (r: Option<&str>)
        ensures
            text::text_ref(r) == self@.as_text(),
    {
        match self {
            Json::Text(text) => Some(text.as_str()),
            _ => None,
        }
    }

    /// The items, where the document is a list.
    pub fn as_array(&self) -> (r: Option<&Vec<Json>>)
        ensures
            array_ref(r) == self@.as_array(),
    {
        match self {
            Json::Array(items) => Some(items),
            _ => None,
        }
    }

    /// The truth value, where the document is one.
    pub fn as_bool(&self) -> (r: Option<bool>)
        ensures
            r == self@.as_bool(),
    {
        match self {
            Json::Bool(b) => Some(*b),
            _ => None,
        }
    }

    /// The integer, where the document is one from zero up.
    pub fn as_u64(&self) -> (r: Option<u64>)
        ensures
            r == self@.as_u64(),
    {
        match self {
            Json::Unsigned(n) => Some(*n),
            _ => None,
        }
    }

    /// Whether the document is `null`.
    pub fn is_null(&self) -> (r: bool)
        ensures
            r == (self@ == JsonModel::Null),
    {
        match self {
            Json::Null => true,
            _ => false,
        }
    }

    /// The field `key`, where it is text.
    pub fn text_field(&self, key: &str) -> (r: Option<&str>)
        ensures
            text::text_ref(r) == self@.text_field(key@),
    {
        match self.get(key) {
            Some(value) => value.as_str(),
            None => None,
        }
    }

    /// The field `key`, where it is a list.
    pub fn array_field(&self, key: &str) -> (r: Option<&Vec<Json>>)
        ensures
            array_ref(r) == self@.array_field(key@),
    {
        match self.get(key) {
            Some(value) => value.as_array(),
            None => None,
        }
    }

    /// The field `key`, where it is true or false.
    pub fn bool_field(&self, key: &str) -> (r: Option<bool>)
        ensures
            r == self@.bool_field(key@),
    {
        match self.get(key) {
            Some(value) => value.as_bool(),
            None => None,
        }
    }

    /// The field `key`, where it is an integer from zero up.
    pub fn u64_field(&self, key: &str) -> (r: Option<u64>)
        ensures
            r == self@.u64_field(key@),
    {
        match self.get(key) {
            Some(value) => value.as_u64(),
            None => None,
        }
    }

    /// The field `inner` of the field `outer`, where it is text.
    pub fn nested_text(&self, outer: &str, inner: &str) -> (r: Option<&str>)
        ensures
            text::text_ref(r) == self@.nested_text(outer@, inner@),
    {
        match self.nested(outer, inner) {
            Some(value) => value.as_str(),
            None => None,
        }
    }

    /// The field `inner` of the field `outer`, where it is an integer from zero up.
    pub fn nested_u64(&self, outer: &str, inner: &str) -> (r: Option<u64>)
        ensures
            r == self@.nested_u64(outer@, inner@),
    {
        match self.nested(outer, inner) {
            Some(value) => value.as_u64(),
            None => None,
        }
    }
}

}
