//! The indexes by which similar examples are found.
//!
//! A vector is kept as a JSON array of numbers. How similar two vectors are is
//! computed elsewhere and comes as a whole number that is larger the more
//! similar they are; the indexes keep the vectors and put the hits in order.
use vstd::prelude::*;

use crate::json::empty_object;
use crate::json::items_view;
use crate::json::json_text;
use crate::json::parse_json_opt;
use crate::json::parsed_json;
use crate::json::parsed_optional;
use crate::json::reads_back;
use crate::json::Json;
use crate::json::JsonNumber;
use crate::json::JsonView;
use crate::json::NumberView;
use crate::json::MAX_DEPTH;
use crate::sort::law_sorted_order;
use crate::sort::positions;
use crate::sort::precedes;
use crate::sort::sort_order;
use crate::sort::sorted_order;
use crate::sort::takes_each_once;
use crate::sort::SortKey;
use crate::text::opt_str;
use crate::text::same;

verus! {

// ---------------------------------------------------------------------------
// Hits
// ---------------------------------------------------------------------------

/// An entry of an index, and how similar it is to what is searched for.
#[derive(Clone, Copy, Debug, PartialEq, Eq, Structural)]
pub struct VectorHit {
    pub id: i64,
    /// A number that is larger the more similar the entry is.
    pub score: i64,
}

/// What hits are sorted by: the most similar first.
pub open spec fn vector_keys(hits: Seq<VectorHit>) -> Seq<SortKey> {
    Seq::new(
        hits.len(),
        |i: int| SortKey { first: (-1 - hits[i].score) as i64, second: 0, third: 0 },
    )
}

/// The hits, the most similar first; equally similar ones stay in their order.
pub open spec fn most_similar(hits: Seq<VectorHit>) -> Seq<VectorHit> {
    let order = sorted_order(vector_keys(hits));
    Seq::new(order.len(), |i: int| hits[order[i]])
}

/// At most `limit` items of a list.
pub open spec fn at_most<T>(list: Seq<T>, limit: usize) -> Seq<T> {
    if list.len() <= limit {
        list
    } else {
        list.take(limit as int)
    }
}

/// The most similar hits, at most `limit` of them.
pub fn best_vectors(hits: &Vec<VectorHit>, limit: usize) -> (r: Vec<VectorHit>)
    ensures
        r@ == at_most(most_similar(hits@), limit),
{
    let mut keys: Vec<SortKey> = Vec::new();
    let mut i: usize = 0;
    while i < hits.len()
        invariant
            i <= hits@.len(),
            keys@.len() == i,
            forall|k: int| 0 <= k < i ==> (#[trigger] keys@[k]) == vector_keys(hits@)[k],
        decreases hits@.len() - i,
    {
        keys.push(SortKey { first: -1 - hits[i].score, second: 0, third: 0 });
        i += 1;
    }
    assert(keys@ =~= vector_keys(hits@));
    let order = sort_order(&keys);
    let ghost all = most_similar(hits@);
    let mut out: Vec<VectorHit> = Vec::new();
    assert(out@ =~= all.take(0));
    let mut i: usize = 0;
    while i < order.len() && i < limit
        invariant
            i <= order@.len(),
            i <= limit,
            all == most_similar(hits@),
            order@.len() == hits@.len(),
            all.len() == order@.len(),
            positions(order@) == sorted_order(vector_keys(hits@)),
            forall|k: int| 0 <= k < order@.len() ==> (#[trigger] order@[k]) < hits@.len(),
            out@ == all.take(i as int),
        decreases order@.len() - i,
    {
        assert(positions(order@)[i as int] == order@[i as int]);
        out.push(hits[order[i]]);
        assert(out@ =~= all.take(i as int + 1));
        i += 1;
    }
    assert(out@ =~= at_most(all, limit));
    out
}

/// A more similar entry comes before a less similar one; none is lost and none
/// is added.
pub proof fn law_most_similar_come_first(hits: Seq<VectorHit>, i: int, j: int)
    requires
        0 <= i < j < hits.len(),
    ensures
        most_similar(hits).len() == hits.len(),
        most_similar(hits)[i].score >= most_similar(hits)[j].score,
        takes_each_once(sorted_order(vector_keys(hits)), hits.len()),
{
    let keys = vector_keys(hits);
    law_sorted_order(keys);
    let order = sorted_order(keys);
    assert(0 <= order[i] < hits.len() && 0 <= order[j] < hits.len());
    assert(!precedes(keys[order[j]], keys[order[i]]));
}

// ---------------------------------------------------------------------------
// The index of one request
// ---------------------------------------------------------------------------

/// An index to which vectors are added and in which similar ones are found.
pub trait HnswIndex: Sized {
    /// The numbers and vectors in the index.
    spec fn contents(&self) -> Seq<(i64, Seq<char>)>;

    /// Adds a vector.
    fn add(&mut self, id: i64, vector: &str)
        ensures
            final(self).contents() == old(self).contents().push((id, vector@)),
    ;

    /// The most similar vectors, at most `limit` of them. `scores` says of each
    /// vector in the index how similar it is to what is searched for.
    fn search(&self, scores: &Vec<i64>, limit: usize) -> (r: Vec<VectorHit>)
        requires
            scores@.len() == self.contents().len(),
        ensures
            r@ == at_most(most_similar(scored(self.contents(), scores@)), limit),
    ;

    /// Keeps the index.
    fn save(&self) -> (r: Result<(), String>);
}

/// The vectors of an index with how similar they are.
pub open spec fn scored(contents: Seq<(i64, Seq<char>)>, scores: Seq<i64>) -> Seq<VectorHit> {
    Seq::new(contents.len(), |i: int| VectorHit { id: contents[i].0, score: scores[i] })
}

/// An index that lasts as long as the value does.
#[derive(Debug)]
pub struct InMemoryVectorIndex {
    pub vectors: Vec<(i64, String)>,
}

impl InMemoryVectorIndex {
    /// An empty index.
    pub fn new() -> (r: InMemoryVectorIndex)
        ensures
            r.contents() == Seq::<(i64, Seq<char>)>::empty(),
    {
        let r = InMemoryVectorIndex { vectors: Vec::new() };
        assert(r.contents() =~= Seq::empty());
        r
    }
}

impl HnswIndex for InMemoryVectorIndex {
    open spec fn contents(&self) -> Seq<(i64, Seq<char>)> {
        Seq::new(self.vectors@.len(), |i: int| (self.vectors@[i].0, self.vectors@[i].1@))
    }

    fn add(&mut self, id: i64, vector: &str) {
        self.vectors.push((id, vector.to_owned()));
        assert(self.contents() =~= old(self).contents().push((id, vector@)));
    }

    fn search(&self, scores: &Vec<i64>, limit: usize) -> (r: Vec<VectorHit>) {
        let ghost expected = scored(self.contents(), scores@);
        let mut hits: Vec<VectorHit> = Vec::new();
        let mut i: usize = 0;
        while i < self.vectors.len()
            invariant
                i <= self.vectors@.len(),
                scores@.len() == self.vectors@.len(),
                expected == scored(self.contents(), scores@),
                hits@.len() == i,
                forall|k: int| 0 <= k < i ==> (#[trigger] hits@[k]) == expected[k],
            decreases self.vectors@.len() - i,
        {
            hits.push(VectorHit { id: self.vectors[i].0, score: scores[i] });
            i += 1;
        }
        assert(hits@ =~= expected);
        best_vectors(&hits, limit)
    }

    fn save(&self) -> (r: Result<(), String>)
        ensures
            r is Ok,
    {
        Ok(())
    }
}

// ---------------------------------------------------------------------------
// The index that is kept
// ---------------------------------------------------------------------------

/// An entry of the index.
#[derive(Debug)]
pub struct Entry {
    pub id: i64,
    pub doc_type: String,
    /// The vector, as a JSON array.
    pub vector: String,
}

/// What an entry of the index is.
pub struct EntryView {
    pub id: i64,
    pub doc_type: Seq<char>,
    pub vector: Seq<char>,
}

impl Entry {
    pub open spec fn view(&self) -> EntryView {
        EntryView { id: self.id, doc_type: self.doc_type@, vector: self.vector@ }
    }
}

/// What the entries of the index are.
pub open spec fn entry_views(list: Seq<Entry>) -> Seq<EntryView> {
    Seq::new(list.len(), |i: int| list[i]@)
}

/// The index that is kept in a file, or nowhere. The store is what counts; the
/// index only saves asking it for every vector.
#[derive(Debug)]
pub struct PersistentVectorIndex {
    pub path: Option<String>,
    pub entries: Vec<Entry>,
}

// ---------------------------------------------------------------------------
// The file of the index
// ---------------------------------------------------------------------------

/// A whole number in JSON.
pub open spec fn whole_number(n: i64) -> JsonView {
    if n >= 0 {
        JsonView::Number(NumberView::Unsigned(n as u64))
    } else {
        JsonView::Number(NumberView::Negative(n))
    }
}

/// The whole number that a JSON value is, if it is one.
pub open spec fn as_whole_number(value: JsonView) -> Option<i64> {
    match value {
        JsonView::Number(NumberView::Unsigned(n)) => if n <= i64::MAX {
            Some(n as i64)
        } else {
            None
        },
        JsonView::Number(NumberView::Negative(n)) => Some(n),
        _ => None,
    }
}

/// Whether a JSON value is an array of numbers.
pub open spec fn is_number_array(value: JsonView) -> bool {
    value matches JsonView::Array(items) && forall|i: int|
        0 <= i < items.len() ==> (#[trigger] items[i]) is Number
}

/// The numbers of a vector; none where its text cannot be read.
pub open spec fn vector_value(vector: Seq<char>) -> JsonView {
    match parsed_json(vector) {
        Some(value) => value,
        None => JsonView::Array(Seq::empty()),
    }
}

/// An entry as the file of the index has it.
pub open spec fn entry_value(entry: EntryView) -> JsonView {
    empty_object().with("id"@, whole_number(entry.id)).with(
        "doc_type"@,
        JsonView::Text(entry.doc_type),
    ).with("vector"@, vector_value(entry.vector))
}

/// What the file of an index holds.
pub open spec fn index_value(entries: Seq<EntryView>) -> JsonView {
    JsonView::Array(Seq::new(entries.len(), |i: int| entry_value(entries[i])))
}

/// A field of an entry in a file: by its name, or by its place in a list of three.
pub open spec fn entry_field(value: JsonView, name: Seq<char>, place: int) -> Option<JsonView> {
    match value {
        JsonView::Array(items) => if items.len() == 3 {
            value.element(place)
        } else {
            None
        },
        _ => value.member(name),
    }
}

/// The entry that a value in a file stands for, if it stands for one.
pub open spec fn entry_from(value: JsonView) -> Option<EntryView> {
    match (
        entry_field(value, "id"@, 0),
        entry_field(value, "doc_type"@, 1),
        entry_field(value, "vector"@, 2),
    ) {
        (Some(id), Some(doc_type), Some(vector)) => match (
            as_whole_number(id),
            doc_type.text(),
        ) {
            (Some(id), Some(doc_type)) => if is_number_array(vector) {
                Some(EntryView { id, doc_type, vector: json_text(vector) })
            } else {
                None
            },
            _ => None,
        },
        _ => None,
    }
}

/// The entries that a value stands for, if it is an array of such values and
/// nothing else.
pub open spec fn index_from(value: JsonView) -> Option<Seq<EntryView>> {
    match value {
        JsonView::Array(items) => if forall|i: int|
            0 <= i < items.len() ==> entry_from(#[trigger] items[i]) is Some {
            Some(Seq::new(items.len(), |i: int| entry_from(items[i])->0))
        } else {
            None
        },
        _ => None,
    }
}

/// The entries in the text of a file; none where there is no text or it does not
/// hold an index.
pub open spec fn loaded_entries(text: Option<Seq<char>>) -> Seq<EntryView> {
    match parsed_optional(text) {
        Some(value) => match index_from(value) {
            Some(list) => list,
            None => Seq::empty(),
        },
        None => Seq::empty(),
    }
}

/// The entries with their vectors written out anew.
pub open spec fn rewritten(entries: Seq<EntryView>) -> Seq<EntryView> {
    Seq::new(
        entries.len(),
        |i: int| EntryView { vector: json_text(vector_value(entries[i].vector)), ..entries[i] },
    )
}

/// Whether the vector of each entry is an array of numbers.
pub open spec fn have_vectors(entries: Seq<EntryView>) -> bool {
    forall|i: int|
        0 <= i < entries.len() ==> is_number_array(vector_value((#[trigger] entries[i]).vector))
}

/// Whether the vector of each entry is an array of numbers, each of which is read
/// from its text as it is written.
pub open spec fn vectors_read_back(entries: Seq<EntryView>) -> bool {
    &&& have_vectors(entries)
    &&& forall|i: int, k: int|
        0 <= i < entries.len() && 0 <= k < vector_value(
            (#[trigger] entries[i]).vector,
        )->Array_0.len() ==> reads_back(
            #[trigger] vector_value(entries[i].vector)->Array_0[k],
            0,
        )
}

/// A whole number as JSON.
fn whole(n: i64) -> (r: Json)
    ensures
        r@ == whole_number(n),
{
    if n >= 0 {
        Json::Number(JsonNumber::Unsigned(n as u64))
    } else {
        Json::Number(JsonNumber::Negative(n))
    }
}

/// The whole number that a JSON value is, if it is one.
fn whole_of(value: &Json) -> (r: Option<i64>)
    ensures
        r == as_whole_number(value@),
{
    match value {
        Json::Number(JsonNumber::Unsigned(n)) => if *n <= i64::MAX as u64 {
            Some(*n as i64)
        } else {
            None
        },
        Json::Number(JsonNumber::Negative(n)) => Some(*n),
        _ => None,
    }
}

/// Whether a JSON value is an array of numbers.
fn only_numbers(value: &Json) -> (r: bool)
    ensures
        r == is_number_array(value@),
{
    match value {
        Json::Array(items) => {
            let ghost views = items_view(items@);
            let mut i: usize = 0;
            while i < items.len()
                invariant
                    i <= items@.len(),
                    views == items_view(items@),
                    value@ == JsonView::Array(views),
                    forall|k: int| 0 <= k < i ==> (#[trigger] views[k]) is Number,
                decreases items@.len() - i,
            {
                assert(views[i as int] == items@[i as int].view());
                if items[i].as_number().is_none() {
                    return false;
                }
                i += 1;
            }
            true
        },
        _ => false,
    }
}

/// An entry as the file of the index has it.
fn entry_json(entry: &Entry) -> (r: Json)
    ensures
        r@ == entry_value(entry@),
{
    let vector = match Json::parse(entry.vector.as_str()) {
        Ok(value) => value,
        Err(_) => {
            let none: Vec<Json> = Vec::new();
            assert(items_view(none@) =~= Seq::empty());
            Json::Array(none)
        },
    };
    Json::object().with("id", whole(entry.id)).with(
        "doc_type",
        Json::text(entry.doc_type.as_str()),
    ).with("vector", vector)
}

/// A field of an entry in a file.
fn field_of<'a>(value: &'a Json, name: &str, place: usize) -> (r: Option<&'a Json>)
    ensures
        match r {
            Some(v) => entry_field(value@, name@, place as int) == Some(v@),
            None => entry_field(value@, name@, place as int) is None,
        },
{
    match value {
        Json::Array(items) => if items.len() == 3 {
            value.at(place)
        } else {
            None
        },
        _ => value.get(name),
    }
}

/// The entry that a value in a file stands for, if it stands for one.
fn read_entry(value: &Json) -> (r: Option<Entry>)
    ensures
        match r {
            Some(entry) => entry_from(value@) == Some(entry@),
            None => entry_from(value@) is None,
        },
{
    match (
        field_of(value, "id", 0),
        field_of(value, "doc_type", 1),
        field_of(value, "vector", 2),
    ) {
        (Some(id), Some(doc_type), Some(vector)) => match (whole_of(id), doc_type.as_str()) {
            (Some(id), Some(doc_type)) => if only_numbers(vector) {
                Some(Entry { id, doc_type: doc_type.to_owned(), vector: vector.to_text() })
            } else {
                None
            },
            _ => None,
        },
        _ => None,
    }
}

/// The entries that a value stands for, if it is an array of such values and
/// nothing else.
fn read_entries(value: &Json) -> (r: Option<Vec<Entry>>)
    ensures
        match r {
            Some(list) => index_from(value@) == Some(entry_views(list@)),
            None => index_from(value@) is None,
        },
{
    match value {
        Json::Array(items) => {
            let ghost views = items_view(items@);
            let mut list: Vec<Entry> = Vec::new();
            let mut i: usize = 0;
            while i < items.len()
                invariant
                    i <= items@.len(),
                    views == items_view(items@),
                    value@ == JsonView::Array(views),
                    list@.len() == i,
                    forall|k: int|
                        0 <= k < i ==> entry_from(#[trigger] views[k]) == Some(list@[k]@),
                decreases items@.len() - i,
            {
                assert(views[i as int] == items@[i as int].view());
                match read_entry(&items[i]) {
                    Some(entry) => {
                        list.push(entry);
                    },
                    None => {
                        return None;
                    },
                }
                i += 1;
            }
            assert(index_from(value@) == Some(entry_views(list@))) by {
                assert(entry_views(list@) =~= Seq::new(
                    views.len(),
                    |i: int| entry_from(views[i])->0,
                ));
            }
            Some(list)
        },
        _ => None,
    }
}

/// The entries of rows of the store.
pub open spec fn entries_of_rows(rows: Seq<(i64, String, String)>) -> Seq<EntryView> {
    Seq::new(
        rows.len(),
        |i: int| EntryView { id: rows[i].0, doc_type: rows[i].1@, vector: rows[i].2@ },
    )
}

/// The entries of a kind, with how similar they are.
pub open spec fn scored_of_type(
    entries: Seq<EntryView>,
    doc_type: Seq<char>,
    scores: Seq<i64>,
) -> Seq<VectorHit>
    decreases entries.len(),
{
    if entries.len() == 0 {
        Seq::empty()
    } else {
        let n = entries.len() - 1;
        let before = scored_of_type(entries.drop_last(), doc_type, scores);
        if entries[n].doc_type == doc_type {
            before.push(VectorHit { id: entries[n].id, score: scores[n] })
        } else {
            before
        }
    }
}

/// The numbers of hits.
pub open spec fn hit_ids(hits: Seq<VectorHit>) -> Seq<i64> {
    Seq::new(hits.len(), |i: int| hits[i].id)
}

/// The numbers of hits.
pub fn ids_of(hits: &Vec<VectorHit>) -> (r: Vec<i64>)
    ensures
        r@ == hit_ids(hits@),
{
    let mut ids: Vec<i64> = Vec::new();
    let mut i: usize = 0;
    while i < hits.len()
        invariant
            i <= hits@.len(),
            ids@.len() == i,
            forall|k: int| 0 <= k < i ==> (#[trigger] ids@[k]) == hits@[k].id,
        decreases hits@.len() - i,
    {
        ids.push(hits[i].id);
        i += 1;
    }
    assert(ids@ =~= hit_ids(hits@));
    ids
}

impl PersistentVectorIndex {
    /// The entries of the index.
    pub open spec fn view(&self) -> Seq<EntryView> {
        entry_views(self.entries@)
    }

    /// The index with what its file holds. Where the file is missing or does not
    /// hold an index, the index is empty, and still belongs to the file. Of a field
    /// that an entry names twice, the last counts.
    pub fn load(path: Option<String>, text: Option<&str>) -> (r: PersistentVectorIndex)
        ensures
            r.path == path,
            r@ == loaded_entries(opt_str(text)),
    {
        let read = match parse_json_opt(text) {
            Some(value) => read_entries(&value),
            None => None,
        };
        let entries = match read {
            Some(list) => list,
            None => Vec::new(),
        };
        let r = PersistentVectorIndex { path, entries };
        assert(r@ =~= loaded_entries(opt_str(text)));
        r
    }

    /// The text of the file that keeps the index. It is loaded as the same index
    /// where each number of its vectors is read as it is written.
    pub fn to_file(&self) -> (r: String)
        ensures
            r@ == json_text(index_value(self@)),
            vectors_read_back(self@) ==> parsed_json(r@) == Some(index_value(self@)),
            vectors_read_back(self@) ==> loaded_entries(Some(r@)) == rewritten(self@),
    {
        let mut items: Vec<Json> = Vec::new();
        let mut i: usize = 0;
        while i < self.entries.len()
            invariant
                i <= self.entries@.len(),
                items@.len() == i,
                forall|k: int|
                    0 <= k < i ==> (#[trigger] items@[k]).view() == entry_value(self@[k]),
            decreases self.entries@.len() - i,
        {
            items.push(entry_json(&self.entries[i]));
            i += 1;
        }
        assert(items_view(items@) =~= Seq::new(self@.len(), |i: int| entry_value(self@[i])));
        let value = Json::Array(items);
        let r = value.to_text();
        proof {
            assert(value@ == index_value(self@));
            if vectors_read_back(self@) {
                lemma_index_reads_back(self@);
                law_index_is_read_back(self@);
            }
        }
        r
    }

    /// How many entries there are.
    pub fn len(&self) -> (r: usize)
        ensures
            r == self@.len(),
    {
        self.entries.len()
    }

    /// Whether there are no entries.
    pub fn is_empty(&self) -> (r: bool)
        ensures
            r == (self@.len() == 0),
    {
        self.entries.len() == 0
    }

    /// Replaces all entries by rows of the store.
    pub fn rebuild(&mut self, rows: Vec<(i64, String, String)>)
        ensures
            final(self)@ == entries_of_rows(rows@),
            final(self).path == old(self).path,
    {
        let mut entries: Vec<Entry> = Vec::new();
        let mut i: usize = 0;
        while i < rows.len()
            invariant
                i <= rows@.len(),
                entries@.len() == i,
                forall|k: int|
                    0 <= k < i ==> (#[trigger] entries@[k])@ == entries_of_rows(rows@)[k],
            decreases rows@.len() - i,
        {
            entries.push(
                Entry { id: rows[i].0, doc_type: rows[i].1.clone(), vector: rows[i].2.clone() },
            );
            i += 1;
        }
        assert(entry_views(entries@) =~= entries_of_rows(rows@));
        self.entries = entries;
    }

    /// Adds an entry.
    pub fn add(&mut self, id: i64, doc_type: &str, vector: &str)
        ensures
            final(self)@ == old(self)@.push(
                EntryView { id, doc_type: doc_type@, vector: vector@ },
            ),
            final(self).path == old(self).path,
    {
        self.entries.push(Entry { id, doc_type: doc_type.to_owned(), vector: vector.to_owned() });
        assert(self@ =~= old(self)@.push(EntryView { id, doc_type: doc_type@, vector: vector@ }));
    }

    /// The numbers of the most similar entries of a kind, at most `limit` of
    /// them. `scores` says of each entry how similar it is to what is searched
    /// for.
    pub fn search(&self, doc_type: &str, scores: &Vec<i64>, limit: usize) -> (r: Vec<i64>)
        requires
            scores@.len() == self@.len(),
        ensures
            r@ == hit_ids(
                at_most(most_similar(scored_of_type(self@, doc_type@, scores@)), limit),
            ),
    {
        let ghost all = self@;
        let mut hits: Vec<VectorHit> = Vec::new();
        assert(hits@ =~= scored_of_type(all.take(0), doc_type@, scores@));
        let mut i: usize = 0;
        while i < self.entries.len()
            invariant
                i <= self.entries@.len(),
                all == self@,
                scores@.len() == all.len(),
                hits@ == scored_of_type(all.take(i as int), doc_type@, scores@),
            decreases self.entries@.len() - i,
        {
            proof {
                assert(all.take(i as int + 1).drop_last() =~= all.take(i as int));
                assert(all.take(i as int + 1)[i as int] == self.entries@[i as int]@);
            }
            if same(self.entries[i].doc_type.as_str(), doc_type) {
                hits.push(VectorHit { id: self.entries[i].id, score: scores[i] });
            }
            i += 1;
        }
        assert(all.take(all.len() as int) =~= all);
        ids_of(&best_vectors(&hits, limit))
    }

    /// Takes the vectors of the store over where the index is empty and they
    /// are not, and says whether it did.
    pub fn heal(&mut self, rows: Vec<(i64, String, String)>) -> (r: bool)
        ensures
            r == (old(self)@.len() == 0 && rows@.len() > 0),
            final(self)@ == (if r {
                entries_of_rows(rows@)
            } else {
                old(self)@
            }),
            final(self).path == old(self).path,
    {
        if self.is_empty() && rows.len() > 0 {
            self.rebuild(rows);
            return true;
        }
        false
    }
}

/// An entry of another kind is not found.
pub proof fn law_search_stays_within_kind(
    entries: Seq<EntryView>,
    doc_type: Seq<char>,
    scores: Seq<i64>,
    i: int,
)
    requires
        0 <= i < scored_of_type(entries, doc_type, scores).len(),
    ensures
        exists|k: int|
            0 <= k < entries.len() && #[trigger] entries[k].doc_type == doc_type && entries[k].id
                == scored_of_type(entries, doc_type, scores)[i].id,
    decreases entries.len(),
{
    let n = entries.len() - 1;
    let before = scored_of_type(entries.drop_last(), doc_type, scores);
    if i < before.len() {
        law_search_stays_within_kind(entries.drop_last(), doc_type, scores, i);
        let k = choose|k: int|
            0 <= k < entries.drop_last().len() && #[trigger] entries.drop_last()[k].doc_type
                == doc_type && entries.drop_last()[k].id == before[i].id;
        assert(entries[k] == entries.drop_last()[k]);
    } else {
        assert(entries[n].doc_type == doc_type);
    }
}

/// A number is nested no deeper than anything.
proof fn lemma_number_reads_back(value: JsonView, depth: nat)
    requires
        value is Number,
        reads_back(value, 0),
    ensures
        reads_back(value, depth),
{
}

/// An entry whose numbers are read as they are written is itself.
proof fn lemma_entry_reads_back(entry: EntryView, depth: nat)
    requires
        depth >= 2,
        is_number_array(vector_value(entry.vector)),
        forall|k: int|
            0 <= k < vector_value(entry.vector)->Array_0.len() ==> reads_back(
                #[trigger] vector_value(entry.vector)->Array_0[k],
                0,
            ),
    ensures
        reads_back(entry_value(entry), depth),
{
    let items = vector_value(entry.vector)->Array_0;
    let inner = (depth - 1) as nat;
    assert forall|k: int| 0 <= k < items.len() implies reads_back(
        #[trigger] items[k],
        (inner - 1) as nat,
    ) by {
        lemma_number_reads_back(items[k], (inner - 1) as nat);
    }
    assert(reads_back(vector_value(entry.vector), inner));
    assert(reads_back(whole_number(entry.id), inner));
    assert(reads_back(JsonView::Text(entry.doc_type), inner));
    let members = entry_value(entry)->Object_0;
    assert forall|key: Seq<char>| members.dom().contains(key) implies reads_back(
        #[trigger] members[key],
        inner,
    ) by {
        assert(key == "id"@ || key == "doc_type"@ || key == "vector"@);
    }
}

/// An index whose numbers are read as they are written is itself.
proof fn lemma_index_reads_back(entries: Seq<EntryView>)
    requires
        vectors_read_back(entries),
    ensures
        reads_back(index_value(entries), MAX_DEPTH as nat),
{
    let items = index_value(entries)->Array_0;
    let inner = (MAX_DEPTH - 1) as nat;
    assert forall|i: int| 0 <= i < items.len() implies reads_back(#[trigger] items[i], inner) by {
        assert(is_number_array(vector_value(entries[i].vector)));
        assert forall|k: int|
            0 <= k < vector_value(entries[i].vector)->Array_0.len() implies reads_back(
            #[trigger] vector_value(entries[i].vector)->Array_0[k],
            0,
        ) by {}
        lemma_entry_reads_back(entries[i], inner);
    }
}

/// An entry is read as it was written.
proof fn lemma_entry_is_read_back(entry: EntryView)
    requires
        is_number_array(vector_value(entry.vector)),
    ensures
        entry_from(entry_value(entry)) == Some(
            EntryView { vector: json_text(vector_value(entry.vector)), ..entry },
        ),
{
    reveal_strlit("id");
    reveal_strlit("doc_type");
    reveal_strlit("vector");
    assert("id"@.len() != "doc_type"@.len());
    assert("id"@.len() != "vector"@.len());
    assert("doc_type"@.len() != "vector"@.len());
    let value = entry_value(entry);
    assert(value.member("id"@) == Some(whole_number(entry.id)));
    assert(value.member("doc_type"@) == Some(JsonView::Text(entry.doc_type)));
    assert(value.member("vector"@) == Some(vector_value(entry.vector)));
}

/// Entries that differ in their vectors only are searched alike.
proof fn lemma_same_search(
    a: Seq<EntryView>,
    b: Seq<EntryView>,
    doc_type: Seq<char>,
    scores: Seq<i64>,
)
    requires
        a.len() == b.len(),
        forall|i: int|
            0 <= i < a.len() ==> (#[trigger] a[i]).id == b[i].id && a[i].doc_type
                == b[i].doc_type,
    ensures
        scored_of_type(a, doc_type, scores) == scored_of_type(b, doc_type, scores),
    decreases a.len(),
{
    if a.len() > 0 {
        let n = a.len() - 1;
        assert(a[n].id == b[n].id && a[n].doc_type == b[n].doc_type);
        let c = a.drop_last();
        let d = b.drop_last();
        assert forall|i: int| 0 <= i < c.len() implies (#[trigger] c[i]).id == d[i].id
            && c[i].doc_type == d[i].doc_type by {
            assert(c[i] == a[i]);
        }
        lemma_same_search(c, d, doc_type, scores);
    }
}

/// An index that is written to its file and loaded again is the same: it has the
/// same entries in the same order, and the same numbers in their vectors, so that
/// a search finds the same. Vectors that stand as they are written come back
/// letter for letter. This rests on JSON being read as it was written.
pub proof fn law_index_is_read_back(entries: Seq<EntryView>)
    requires
        have_vectors(entries),
        parsed_json(json_text(index_value(entries))) == Some(index_value(entries)),
    ensures
        loaded_entries(Some(json_text(index_value(entries)))) == rewritten(entries),
        rewritten(entries).len() == entries.len(),
        forall|doc_type: Seq<char>, scores: Seq<i64>|
            scored_of_type(rewritten(entries), doc_type, scores) == #[trigger] scored_of_type(
                entries,
                doc_type,
                scores,
            ),
        (forall|i: int|
            0 <= i < entries.len() ==> json_text(vector_value((#[trigger] entries[i]).vector))
                == entries[i].vector) ==> rewritten(entries) == entries,
{
    let again = rewritten(entries);
    let items = Seq::new(entries.len(), |i: int| entry_value(entries[i]));
    assert(index_value(entries) == JsonView::Array(items));
    assert forall|i: int| 0 <= i < items.len() implies entry_from(#[trigger] items[i]) == Some(
        again[i],
    ) by {
        assert(is_number_array(vector_value(entries[i].vector)));
        lemma_entry_is_read_back(entries[i]);
    }
    assert(Seq::new(items.len(), |i: int| entry_from(items[i])->0) =~= again);
    assert forall|doc_type: Seq<char>, scores: Seq<i64>|
        scored_of_type(again, doc_type, scores) == #[trigger] scored_of_type(
            entries,
            doc_type,
            scores,
        ) by {
        lemma_same_search(again, entries, doc_type, scores);
    }
    if forall|i: int|
        0 <= i < entries.len() ==> json_text(vector_value((#[trigger] entries[i]).vector))
            == entries[i].vector {
        assert forall|i: int| 0 <= i < entries.len() implies again[i] == entries[i] by {
            assert(json_text(vector_value(entries[i].vector)) == entries[i].vector);
        }
        assert(again =~= entries);
    }
}

/// Where the file of an index is missing or does not hold one, the index begins
/// empty; after an entry is added and the index written, what is loaded has that
/// entry alone, and a search of its kind finds it.
pub proof fn law_lost_index_begins_anew(
    text: Option<Seq<char>>,
    entry: EntryView,
    score: i64,
    limit: usize,
)
    requires
        match parsed_optional(text) {
            Some(value) => index_from(value) is None,
            None => true,
        },
        limit > 0,
        is_number_array(vector_value(entry.vector)),
        parsed_json(json_text(index_value(seq![entry]))) == Some(index_value(seq![entry])),
    ensures
        ({
            let first = loaded_entries(text).push(entry);
            let second = loaded_entries(Some(json_text(index_value(first))));
            &&& loaded_entries(text).len() == 0
            &&& second.len() == 1
            &&& hit_ids(
                at_most(
                    most_similar(scored_of_type(second, entry.doc_type, seq![score])),
                    limit,
                ),
            ) == seq![entry.id]
        }),
{
    let first = loaded_entries(text).push(entry);
    assert(first =~= seq![entry]);
    law_index_is_read_back(first);
    let second = rewritten(first);
    let scores = seq![score];
    assert(second.len() == 1);
    assert(second.drop_last() =~= Seq::empty());
    assert(scored_of_type(second.drop_last(), entry.doc_type, scores) =~= Seq::empty());
    let hits = scored_of_type(second, entry.doc_type, scores);
    assert(hits =~= seq![VectorHit { id: entry.id, score }]);
    law_sorted_order(vector_keys(hits));
    let order = sorted_order(vector_keys(hits));
    assert(order.len() == 1);
    assert(0 <= order[0] < 1);
    assert(most_similar(hits) =~= hits);
    assert(at_most(hits, limit) =~= hits);
    assert(hit_ids(hits) =~= seq![entry.id]);
}

} // verus!
