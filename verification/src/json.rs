//! JSON values: the library's own tree, its mathematical view, and the text
//! that `serde_json` reads and writes.
use vstd::prelude::*;

use crate::text::push_text;
use crate::text::same;
use crate::text::texts;

verus! {

// ---------------------------------------------------------------------------
// Values and their views
// ---------------------------------------------------------------------------

/// A JSON number. Integers are kept as such; any other number is kept as the
/// text that `serde_json` writes for it.
#[derive(Debug)]
pub enum JsonNumber {
    Unsigned(u64),
    Negative(i64),
    Decimal(String),
}

/// A JSON value. Of several entries of an object with one key the last counts.
#[derive(Debug)]
pub enum Json {
    Null,
    Bool(bool),
    Number(JsonNumber),
    Text(String),
    Array(Vec<Json>),
    Object(Vec<(String, Json)>),
}

/// What a JSON number is.
pub enum NumberView {
    Unsigned(u64),
    Negative(i64),
    Decimal(Seq<char>),
}

/// What a JSON value is: an object is a map from keys to values.
pub enum JsonView {
    Null,
    Bool(bool),
    Number(NumberView),
    Text(Seq<char>),
    Array(Seq<JsonView>),
    Object(Map<Seq<char>, JsonView>),
}

impl JsonNumber {
    pub open spec fn view(&self) -> NumberView {
        match self {
            JsonNumber::Unsigned(n) => NumberView::Unsigned(*n),
            JsonNumber::Negative(n) => NumberView::Negative(*n),
            JsonNumber::Decimal(s) => NumberView::Decimal(s@),
        }
    }

    /// A copy of the number.
    pub fn copy(&self) -> (r: JsonNumber)
        ensures
            r@ == self@,
    {
        match self {
            JsonNumber::Unsigned(n) => JsonNumber::Unsigned(*n),
            JsonNumber::Negative(n) => JsonNumber::Negative(*n),
            JsonNumber::Decimal(s) => JsonNumber::Decimal(s.clone()),
        }
    }
}

impl Json {
    pub open spec fn view(&self) -> JsonView
        decreases self,
    {
        match self {
            Json::Null => JsonView::Null,
            Json::Bool(b) => JsonView::Bool(*b),
            Json::Number(n) => JsonView::Number(n@),
            Json::Text(s) => JsonView::Text(s@),
            Json::Array(items) => JsonView::Array(items_view(items@)),
            Json::Object(entries) => JsonView::Object(entries_view(entries@)),
        }
    }
}

/// The views of the items of an array.
pub open spec fn items_view(items: Seq<Json>) -> Seq<JsonView>
    decreases items,
{
    Seq::new(
        items.len(),
        |i: int|
            if 0 <= i < items.len() {
                items[i].view()
            } else {
                JsonView::Null
            },
    )
}

/// The map that the entries of an object stand for.
pub open spec fn entries_view(entries: Seq<(String, Json)>) -> Map<Seq<char>, JsonView>
    decreases entries,
{
    if entries.len() == 0 {
        Map::empty()
    } else {
        entries_view(entries.drop_last()).insert(entries.last().0@, entries.last().1.view())
    }
}

impl JsonView {
    /// The value under `key`, if this is an object that has one.
    pub open spec fn member(self, key: Seq<char>) -> Option<JsonView> {
        match self {
            JsonView::Object(m) => if m.dom().contains(key) {
                Some(m[key])
            } else {
                None
            },
            _ => None,
        }
    }

    /// The item at position `i`, if this is an array that has one.
    pub open spec fn element(self, i: int) -> Option<JsonView> {
        match self {
            JsonView::Array(s) => if 0 <= i < s.len() {
                Some(s[i])
            } else {
                None
            },
            _ => None,
        }
    }

    /// The text, if this is a string.
    pub open spec fn text(self) -> Option<Seq<char>> {
        match self {
            JsonView::Text(s) => Some(s),
            _ => None,
        }
    }

    /// The items, if this is an array.
    pub open spec fn items(self) -> Option<Seq<JsonView>> {
        match self {
            JsonView::Array(s) => Some(s),
            _ => None,
        }
    }

    /// This object with `value` under `key`; anything else as it is.
    pub open spec fn with(self, key: Seq<char>, value: JsonView) -> JsonView {
        match self {
            JsonView::Object(m) => JsonView::Object(m.insert(key, value)),
            other => other,
        }
    }
}

/// The object without entries.
pub open spec fn empty_object() -> JsonView {
    JsonView::Object(Map::empty())
}

/// An array of strings.
pub open spec fn text_array(texts: Seq<Seq<char>>) -> JsonView {
    JsonView::Array(Seq::new(texts.len(), |i: int| JsonView::Text(texts[i])))
}

/// A string, or null where there is none.
pub open spec fn text_or_null(text: Option<Seq<char>>) -> JsonView {
    match text {
        Some(s) => JsonView::Text(s),
        None => JsonView::Null,
    }
}

// ---------------------------------------------------------------------------
// Entries
// ---------------------------------------------------------------------------

/// Looking a key up in the entries: the last entry with that key, if any.
proof fn lemma_entries_lookup(entries: Seq<(String, Json)>, key: Seq<char>, i: int)
    requires
        0 <= i < entries.len(),
        entries[i].0@ == key,
        forall|j: int| i < j < entries.len() ==> (#[trigger] entries[j]).0@ != key,
    ensures
        entries_view(entries).dom().contains(key),
        entries_view(entries)[key] == entries[i].1.view(),
    decreases entries.len(),
{
    if i < entries.len() - 1 {
        let d = entries.drop_last();
        assert(forall|j: int| i < j < d.len() ==> (#[trigger] d[j]).0@ == entries[j].0@);
        lemma_entries_lookup(d, key, i);
    }
}

/// A key that no entry has is not in the map.
proof fn lemma_entries_absent(entries: Seq<(String, Json)>, key: Seq<char>)
    requires
        forall|j: int| 0 <= j < entries.len() ==> (#[trigger] entries[j]).0@ != key,
    ensures
        !entries_view(entries).dom().contains(key),
    decreases entries.len(),
{
    if entries.len() > 0 {
        let d = entries.drop_last();
        assert(forall|j: int| 0 <= j < d.len() ==> (#[trigger] d[j]).0@ == entries[j].0@);
        lemma_entries_absent(d, key);
    }
}

/// Replacing the last entry of a key is inserting into the map.
proof fn lemma_entries_update(entries: Seq<(String, Json)>, i: int, entry: (String, Json))
    requires
        0 <= i < entries.len(),
        entries[i].0@ == entry.0@,
        forall|j: int| i < j < entries.len() ==> (#[trigger] entries[j]).0@ != entry.0@,
    ensures
        entries_view(entries.update(i, entry)) == entries_view(entries).insert(
            entry.0@,
            entry.1.view(),
        ),
    decreases entries.len(),
{
    let d = entries.drop_last();
    let u = entries.update(i, entry);
    if i == entries.len() - 1 {
        assert(u.drop_last() =~= d);
        assert(entries_view(u) =~= entries_view(entries).insert(entry.0@, entry.1.view()));
    } else {
        assert(forall|j: int| i < j < d.len() ==> (#[trigger] d[j]).0@ == entries[j].0@);
        lemma_entries_update(d, i, entry);
        assert(u.drop_last() =~= d.update(i, entry));
        assert(entries_view(u) =~= entries_view(entries).insert(entry.0@, entry.1.view()));
    }
}

/// The position of the last entry with `key`.
fn last_entry(entries: &Vec<(String, Json)>, key: &str) -> (r: Option<usize>)
    ensures
        match r {
            Some(i) => {
                &&& i < entries@.len()
                &&& entries@[i as int].0@ == key@
                &&& forall|j: int| i < j < entries@.len() ==> (#[trigger] entries@[j]).0@ != key@
            },
            None => forall|j: int|
                0 <= j < entries@.len() ==> (#[trigger] entries@[j]).0@ != key@,
        },
{
    let mut i: usize = entries.len();
    while i > 0
        invariant
            i <= entries@.len(),
            forall|j: int| i <= j < entries@.len() ==> (#[trigger] entries@[j]).0@ != key@,
        decreases i,
    {
        i -= 1;
        if same(entries[i].0.as_str(), key) {
            return Some(i);
        }
    }
    None
}

/// The position of the entry that counts for `key`.
pub(crate) fn find_entry(entries: &Vec<(String, Json)>, key: &str) -> (r: Option<usize>)
    ensures
        match r {
            Some(i) => {
                &&& i < entries@.len()
                &&& entries_view(entries@).dom().contains(key@)
                &&& entries_view(entries@)[key@] == entries@[i as int].1.view()
            },
            None => !entries_view(entries@).dom().contains(key@),
        },
{
    match last_entry(entries, key) {
        Some(i) => {
            proof {
                lemma_entries_lookup(entries@, key@, i as int);
            }
            Some(i)
        },
        None => {
            proof {
                lemma_entries_absent(entries@, key@);
            }
            None
        },
    }
}

// ---------------------------------------------------------------------------
// Reading and building
// ---------------------------------------------------------------------------

impl Json {
    /// The value under `key`, if this is an object that has one.
    pub fn get(&self, key: &str) -> (r: Option<&Json>)
        ensures
            match r {
                Some(v) => self@.member(key@) == Some(v@),
                None => self@.member(key@) is None,
            },
    {
        match self {
            Json::Object(entries) => match find_entry(entries, key) {
                Some(i) => Some(&entries[i].1),
                None => None,
            },
            _ => None,
        }
    }

    /// The item at position `i`, if this is an array that has one.
    pub fn at(&self, i: usize) -> (r: Option<&Json>)
        ensures
            match r {
                Some(v) => self@.element(i as int) == Some(v@),
                None => self@.element(i as int) is None,
            },
    {
        match self {
            Json::Array(items) => if i < items.len() {
                Some(&items[i])
            } else {
                None
            },
            _ => None,
        }
    }

    /// The text, if this is a string.
    pub fn as_str(&self) -> (r: Option<&str>)
        ensures
            crate::text::opt_str(r) == self@.text(),
    {
        match self {
            Json::Text(s) => Some(s.as_str()),
            _ => None,
        }
    }

    /// The truth value, if this is one.
    pub fn as_bool(&self) -> (r: Option<bool>)
        ensures
            r == (match self@ {
                JsonView::Bool(b) => Some(b),
                _ => None,
            }),
    {
        match self {
            Json::Bool(b) => Some(*b),
            _ => None,
        }
    }

    /// The number, if this is one.
    pub fn as_number(&self) -> (r: Option<&JsonNumber>)
        ensures
            match r {
                Some(n) => self@ == JsonView::Number(n@),
                None => !(self@ is Number),
            },
    {
        match self {
            Json::Number(n) => Some(n),
            _ => None,
        }
    }

    /// Whether this is an object.
    pub fn is_object(&self) -> (r: bool)
        ensures
            r == (self@ is Object),
    {
        match self {
            Json::Object(_) => true,
            _ => false,
        }
    }

    /// The string with the text `s`.
    pub fn text(s: &str) -> (r: Json)
        ensures
            r@ == JsonView::Text(s@),
    {
        Json::Text(s.to_owned())
    }

    /// A string, or null where there is none.
    pub fn text_or_null(s: Option<&str>) -> (r: Json)
        ensures
            r@ == text_or_null(crate::text::opt_str(s)),
    {
        match s {
            Some(s) => Json::Text(s.to_owned()),
            None => Json::Null,
        }
    }

    /// The number `n`.
    pub fn unsigned(n: u64) -> (r: Json)
        ensures
            r@ == JsonView::Number(NumberView::Unsigned(n)),
    {
        Json::Number(JsonNumber::Unsigned(n))
    }

    /// An array of strings.
    pub fn texts(list: &Vec<String>) -> (r: Json)
        ensures
            r@ == text_array(crate::text::texts(list@)),
    {
        let mut items: Vec<Json> = Vec::new();
        let mut i: usize = 0;
        while i < list.len()
            invariant
                i <= list@.len(),
                items@.len() == i,
                forall|k: int|
                    0 <= k < i ==> (#[trigger] items@[k]).view() == JsonView::Text(list@[k]@),
            decreases list@.len() - i,
        {
            items.push(Json::Text(list[i].clone()));
            i += 1;
        }
        assert(items_view(items@) =~= Seq::new(
            list@.len(),
            |i: int| JsonView::Text(crate::text::texts(list@)[i]),
        ));
        Json::Array(items)
    }

    /// The object without entries.
    pub fn object() -> (r: Json)
        ensures
            r@ == empty_object(),
    {
        Json::Object(Vec::new())
    }

    /// Puts `value` under `key`, if this is an object.
    pub fn insert(&mut self, key: &str, value: Json)
        ensures
            final(self)@ == old(self)@.with(key@, value@),
    {
        match self {
            Json::Object(entries) => {
                let entry = (key.to_owned(), value);
                match last_entry(entries, key) {
                    Some(i) => {
                        proof {
                            lemma_entries_update(entries@, i as int, entry);
                        }
                        entries.set(i, entry);
                    },
                    None => {
                        let ghost before = entries@;
                        entries.push(entry);
                        proof {
                            assert(entries@.drop_last() =~= before);
                        }
                    },
                }
            },
            _ => {},
        }
    }

    /// This object with `value` under `key`.
    pub fn with(self, key: &str, value: Json) -> (r: Json)
        ensures
            r@ == self@.with(key@, value@),
    {
        let mut object = self;
        object.insert(key, value);
        object
    }

    /// A copy of the value.
    pub fn copy(&self) -> (r: Json)
        ensures
            r@ == self@,
        decreases self,
    {
        match self {
            Json::Null => Json::Null,
            Json::Bool(b) => Json::Bool(*b),
            Json::Number(n) => Json::Number(n.copy()),
            Json::Text(s) => Json::Text(s.clone()),
            Json::Array(items) => Json::Array(copy_items(items)),
            Json::Object(entries) => Json::Object(copy_entries(entries)),
        }
    }
}

/// A copy of the items of an array.
pub fn copy_items(items: &Vec<Json>) -> (r: Vec<Json>)
    ensures
        items_view(r@) == items_view(items@),
    decreases items,
{
    let mut out: Vec<Json> = Vec::new();
    let mut i: usize = 0;
    while i < items.len()
        invariant
            i <= items@.len(),
            out@.len() == i,
            forall|k: int| 0 <= k < i ==> (#[trigger] out@[k]).view() == items@[k].view(),
        decreases items@.len() - i,
    {
        out.push(items[i].copy());
        i += 1;
    }
    assert(items_view(out@) =~= items_view(items@));
    out
}

/// A copy of the entries of an object.
fn copy_entries(entries: &Vec<(String, Json)>) -> (r: Vec<(String, Json)>)
    ensures
        entries_view(r@) == entries_view(entries@),
    decreases entries,
{
    let mut out: Vec<(String, Json)> = Vec::new();
    let mut i: usize = 0;
    while i < entries.len()
        invariant
            i <= entries@.len(),
            entries_view(out@) == entries_view(entries@.take(i as int)),
        decreases entries@.len() - i,
    {
        let ghost before = out@;
        let entry = (entries[i].0.clone(), entries[i].1.copy());
        out.push(entry);
        proof {
            assert(out@.drop_last() =~= before);
            assert(entries@.take(i as int + 1).drop_last() =~= entries@.take(i as int));
        }
        i += 1;
    }
    assert(entries@.take(entries@.len() as int) =~= entries@);
    out
}

// ---------------------------------------------------------------------------
// Text
// ---------------------------------------------------------------------------

/// The value tree of `serde_json`.
#[verifier::external_type_specification]
#[verifier::external_body]
pub struct ExJsonValue(serde_json::Value);

/// The value that `serde_json::from_str` reads from a text, or what it says of a
/// text from which it reads none.
pub uninterp spec fn json_reading(text: Seq<char>) -> Result<JsonView, Seq<char>>;

/// The value that is read from a text, if one is.
pub open spec fn parsed_json(text: Seq<char>) -> Option<JsonView> {
    match json_reading(text) {
        Ok(value) => Some(value),
        Err(_) => None,
    }
}

/// The compact text that `serde_json` writes for a value.
pub uninterp spec fn json_text(value: JsonView) -> Seq<char>;

/// The indented text that `serde_json` writes for a value.
pub uninterp spec fn json_pretty_text(value: JsonView) -> Seq<char>;

/// Whether `serde_json` reads `value` back from the text it writes for it: its
/// numbers are in the form that reading gives them, each other number than an
/// integer is read from its text as that text, and it is nested no deeper than
/// `depth`.
pub open spec fn reads_back(value: JsonView, depth: nat) -> bool
    decreases depth,
{
    match value {
        JsonView::Null | JsonView::Bool(_) | JsonView::Text(_) => true,
        JsonView::Number(NumberView::Unsigned(_)) => true,
        JsonView::Number(NumberView::Negative(n)) => n < 0,
        JsonView::Number(NumberView::Decimal(t)) => parsed_json(t) == Some(value),
        JsonView::Array(s) => depth > 0 && forall|i: int|
            0 <= i < s.len() ==> reads_back(#[trigger] s[i], (depth - 1) as nat),
        JsonView::Object(m) => depth > 0 && forall|k: Seq<char>|
            m.dom().contains(k) ==> reads_back(#[trigger] m[k], (depth - 1) as nat),
    }
}

/// The nesting that `serde_json` reads.
pub const MAX_DEPTH: usize = 127;

/// A `serde_json::Value` as a value of the library, field by field.
#[verifier::external_body]
fn from_value(value: serde_json::Value) -> Json {
    match value {
        serde_json::Value::Null => Json::Null,
        serde_json::Value::Bool(b) => Json::Bool(b),
        serde_json::Value::Number(n) => Json::Number(match (n.as_u64(), n.as_i64()) {
            (Some(u), _) => JsonNumber::Unsigned(u),
            (None, Some(i)) => JsonNumber::Negative(i),
            (None, None) => JsonNumber::Decimal(n.to_string()),
        }),
        serde_json::Value::String(s) => Json::Text(s),
        serde_json::Value::Array(a) => Json::Array(a.into_iter().map(from_value).collect()),
        serde_json::Value::Object(m) => Json::Object(
            m.into_iter().map(|(k, v)| (k, from_value(v))).collect(),
        ),
    }
}

/// A value of the library as a `serde_json::Value`, field by field.
#[verifier::external_body]
fn to_value(json: &Json) -> serde_json::Value {
    match json {
        Json::Null => serde_json::Value::Null,
        Json::Bool(b) => serde_json::Value::Bool(*b),
        Json::Number(JsonNumber::Unsigned(u)) => serde_json::Value::from(*u),
        Json::Number(JsonNumber::Negative(i)) => serde_json::Value::from(*i),
        Json::Number(JsonNumber::Decimal(t)) => t.parse().map_or(
            serde_json::Value::Null,
            serde_json::Value::Number,
        ),
        Json::Text(s) => serde_json::Value::String(s.clone()),
        Json::Array(a) => serde_json::Value::Array(a.iter().map(to_value).collect()),
        Json::Object(es) => es.iter().map(|(k, v)| (k.clone(), to_value(v))).collect(),
    }
}

/// `serde_json::from_str` for a `serde_json::Value`: reads a text as JSON. What
/// comes back, a value or an error, is a function of the text. The error comes
/// as its text.
#[verifier::external_body]
fn read_value(text: &str) -> (r: Result<Json, String>)
    ensures
        match r {
            Ok(v) => json_reading(text@) == Ok::<JsonView, Seq<char>>(v@),
            Err(e) => json_reading(text@) == Err::<JsonView, Seq<char>>(e@),
        },
{
    serde_json::from_str::<serde_json::Value>(text).map(from_value).map_err(|e| e.to_string())
}

/// `serde_json::Value::to_string`: the compact text of a value, a function of
/// the value. A value that is not nested too deeply is read back from its text,
/// where each of its numbers is an integer or is read from its own text as that
/// text: a number is written there and read in the same way as by itself.
#[verifier::external_body]
fn write_value(json: &Json) -> (r: String)
    ensures
        r@ == json_text(json@),
        reads_back(json@, MAX_DEPTH as nat) ==> parsed_json(r@) == Some(json@),
{
    to_value(json).to_string()
}

/// `serde_json::to_string_pretty`: the indented text of a value, a function of
/// the value.
#[verifier::external_body]
fn write_pretty(json: &Json) -> (r: String)
    ensures
        r@ == json_pretty_text(json@),
{
    serde_json::to_string_pretty(&to_value(json)).unwrap_or_default()
}

impl Json {
    /// Reads a text as JSON.
    pub fn parse(text: &str) -> (r: Result<Json, String>)
        ensures
            match r {
                Ok(v) => json_reading(text@) == Ok::<JsonView, Seq<char>>(v@),
                Err(e) => json_reading(text@) == Err::<JsonView, Seq<char>>(e@),
            },
    {
        read_value(text)
    }

    /// The compact text of the value.
    pub fn to_text(&self) -> (r: String)
        ensures
            r@ == json_text(self@),
            reads_back(self@, MAX_DEPTH as nat) ==> parsed_json(r@) == Some(self@),
    {
        write_value(self)
    }

    /// The indented text of the value.
    pub fn to_pretty_text(&self) -> (r: String)
        ensures
            r@ == json_pretty_text(self@),
    {
        write_pretty(self)
    }
}

/// The value that an optional text holds, if it holds one.
pub open spec fn parsed_optional(raw: Option<Seq<char>>) -> Option<JsonView> {
    match raw {
        Some(text) => parsed_json(text),
        None => None,
    }
}

/// The value that an optional text holds.
pub fn parse_json_opt(raw: Option<&str>) -> (r: Option<Json>)
    ensures
        match r {
            Some(v) => parsed_optional(crate::text::opt_str(raw)) == Some(v@),
            None => parsed_optional(crate::text::opt_str(raw)) is None,
        },
{
    match raw {
        Some(text) => match Json::parse(text) {
            Ok(v) => Some(v),
            Err(_) => None,
        },
        None => None,
    }
}

/// The strings among the items of an array.
pub open spec fn string_items(items: Seq<JsonView>) -> Seq<Seq<char>>
    decreases items.len(),
{
    if items.len() == 0 {
        Seq::empty()
    } else {
        let rest = string_items(items.drop_last());
        match items.last().text() {
            Some(s) => rest.push(s),
            None => rest,
        }
    }
}

/// The strings among the items of an array.
pub fn strings_of(items: &Vec<Json>) -> (r: Vec<String>)
    ensures
        texts(r@) == string_items(items_view(items@)),
{
    let ghost views = items_view(items@);
    let mut out: Vec<String> = Vec::new();
    assert(texts(out@) =~= string_items(views.take(0)));
    let mut i: usize = 0;
    while i < items.len()
        invariant
            i <= items@.len(),
            views == items_view(items@),
            texts(out@) == string_items(views.take(i as int)),
        decreases items@.len() - i,
    {
        proof {
            assert(views.take(i as int + 1).drop_last() =~= views.take(i as int));
            assert(views.take(i as int + 1).last() == items@[i as int].view());
        }
        match items[i].as_str() {
            Some(s) => {
                push_text(&mut out, s.to_owned());
            },
            None => {},
        }
        i += 1;
    }
    assert(views.take(views.len() as int) =~= views);
    out
}

} // verus!
