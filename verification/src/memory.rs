//! Finding examples for a request: similar ones where vectors are kept, and
//! recent ones else.
use vstd::prelude::*;

use crate::database::ArgView;
use crate::database::Event;
use crate::database::Fault;
use crate::database::StoreError;
use crate::generation::EXAMPLE_LIMIT;
use crate::json::items_view;
use crate::json::Json;
use crate::json::JsonView;
use crate::schemas::DocType;
use crate::sqlite::all_of;
use crate::sqlite::answer;
use crate::sqlite::asked;
use crate::sqlite::fields_fetched;
use crate::sqlite::fields_list;
use crate::sqlite::json_list_outcome;
use crate::sqlite::meanings;
use crate::sqlite::parsed_all;
use crate::sqlite::SqliteStore;
use crate::sqlite::EMBEDDINGS_OF_TYPE;
use crate::sqlite::RECENT_OF_TYPE;
use crate::tables::after_events;
use crate::tables::has_vector;
use crate::tables::law_recent_examples_are_read;
use crate::tables::law_vectors_are_read;
use crate::tables::lemma_ran_part;
use crate::tables::lemma_same_rows_len;
use crate::tables::obeys;
use crate::tables::ran;
use crate::tables::recent_texts;
use crate::tables::where_true;
use crate::tables::Tables;
use crate::vectors::at_most;
use crate::vectors::hit_ids;
use crate::vectors::ids_of;
use crate::vectors::most_similar;
use crate::vectors::scored;
use crate::vectors::HnswIndex;
use crate::vectors::InMemoryVectorIndex;

verus! {

/// What comes of asking for similar examples.
#[derive(Debug)]
pub enum Retrieval {
    /// These are the examples.
    Examples(Vec<Json>),
    /// The vectors of these are to be compared.
    Compare(SimilarityPending),
}

/// Examples whose vectors are to be compared.
#[derive(Debug)]
pub struct SimilarityPending {
    pub index: InMemoryVectorIndex,
    pub limit: usize,
}

/// Whether the history has grown by the question for recent examples of a kind.
pub open spec fn asked_for_recent(
    before: Seq<Event>,
    after: Seq<Event>,
    doc_type: DocType,
    limit: usize,
) -> bool {
    asked(
        before,
        after,
        RECENT_OF_TYPE@,
        seq![ArgView::Text(doc_type.thai()), ArgView::Integer(limit as i64)],
    )
}

/// The examples of the kind of a request that were kept last.
pub fn retrieve(store: &mut SqliteStore, doc_type: DocType, limit: usize) -> (r: Result<
    Vec<Json>,
    StoreError,
>)
    ensures
        asked_for_recent(old(store).history(), final(store).history(), doc_type, limit),
        json_list_outcome(r) == fields_list(answer(final(store).history())),
{
    store.recent_memory_fields(Some(doc_type.as_thai()), limit)
}

/// Whether the history has grown by the question for the vectors of a kind and,
/// where there are none, by the question for recent examples; and what came of
/// it.
pub open spec fn similarity_begun(
    before: Seq<Event>,
    after: Seq<Event>,
    doc_type: DocType,
    limit: usize,
    r: Result<Retrieval, StoreError>,
) -> bool {
    let first = after.take(before.len() as int + 1);
    &&& after.len() > before.len()
    &&& asked(before, first, EMBEDDINGS_OF_TYPE@, seq![ArgView::Text(doc_type.thai())])
    &&& match all_of::<(i64, String)>(answer(first)) {
        Err(f) => after == first && (r matches Err(e) && e@ == f),
        Ok(pairs) => if pairs.len() == 0 {
            &&& asked_for_recent(first, after, doc_type, limit)
            &&& match fields_list(answer(after)) {
                Err(f) => r matches Err(e) && e@ == f,
                Ok(list) => r matches Ok(Retrieval::Examples(v)) && items_view(v@) == list,
            }
        } else {
            after == first && (r matches Ok(Retrieval::Compare(p)) && p.index.contents() == pairs
                && p.limit == limit)
        },
    }
}

/// Begins to look for examples that are similar to a request.
pub fn retrieve_by_similarity(store: &mut SqliteStore, doc_type: DocType, limit: usize) -> (r:
    Result<Retrieval, StoreError>)
    ensures
        similarity_begun(old(store).history(), final(store).history(), doc_type, limit, r),
{
    let ghost before = store.history();
    let got = store.memory_embeddings(Some(doc_type.as_thai()));
    let ghost first = store.history();
    assert(first.take(before.len() as int + 1) =~= first);
    let pairs = match got {
        Ok(pairs) => pairs,
        Err(e) => {
            return Err(e);
        },
    };
    assert(meanings(pairs@).len() == pairs@.len());
    if pairs.len() == 0 {
        let recent = retrieve(store, doc_type, limit);
        assert(store.history().take(before.len() as int + 1) =~= first);
        return match recent {
            Ok(list) => Ok(Retrieval::Examples(list)),
            Err(e) => Err(e),
        };
    }
    let mut index = InMemoryVectorIndex::new();
    assert(index.contents() =~= meanings(pairs@).take(0));
    let mut i: usize = 0;
    while i < pairs.len()
        invariant
            i <= pairs@.len(),
            index.contents() == meanings(pairs@).take(i as int),
        decreases pairs@.len() - i,
    {
        let ghost before = index.contents();
        index.add(pairs[i].0, pairs[i].1.as_str());
        assert(index.contents() =~= meanings(pairs@).take(i as int + 1));
        i += 1;
    }
    assert(index.contents() =~= meanings(pairs@));
    Ok(Retrieval::Compare(SimilarityPending { index, limit }))
}

impl SimilarityPending {
    /// Goes on when the vectors have been compared: the fields of the most
    /// similar examples, the most similar first.
    pub fn compared(self, store: &mut SqliteStore, scores: &Vec<i64>) -> (r: Result<
        Vec<Json>,
        StoreError,
    >)
        requires
            scores@.len() == self.index.contents().len(),
        ensures
            ({
                let ids = hit_ids(
                    at_most(
                        most_similar(scored(self.index.contents(), scores@)),
                        self.limit,
                    ),
                );
                fields_fetched(
                    old(store).history(),
                    final(store).history(),
                    ids,
                    json_list_outcome(r),
                )
            }),
    {
        let hits = self.index.search(scores, self.limit);
        store.memory_fields_by_ids(&ids_of(&hits))
    }
}

/// The examples that were found: none where the store failed.
pub fn examples_or_none(got: Result<Vec<Json>, StoreError>) -> (r: Vec<Json>)
    ensures
        match got {
            Ok(list) => r == list,
            Err(_) => r@.len() == 0,
        },
{
    match got {
        Ok(list) => list,
        Err(_) => Vec::new(),
    }
}

impl SimilarityPending {
    /// Ends the search for examples when the vectors have been compared, or when
    /// they could not be because one of them cannot be read: with the most
    /// similar examples, or with none where anything failed.
    pub fn examples(self, store: &mut SqliteStore, scores: Option<&Vec<i64>>) -> (r: Vec<Json>)
        requires
            scores matches Some(list) ==> list@.len() == self.index.contents().len(),
        ensures
            match scores {
                None => final(store).history() == old(store).history() && r@.len() == 0,
                Some(list) => exists|got: Result<Seq<JsonView>, Fault>| #[trigger]
                    fields_fetched(
                        old(store).history(),
                        final(store).history(),
                        hit_ids(
                            at_most(
                                most_similar(scored(self.index.contents(), list@)),
                                self.limit,
                            ),
                        ),
                        got,
                    ) && match got {
                        Ok(found) => items_view(r@) == found,
                        Err(_) => r@.len() == 0,
                    },
            },
    {
        match scores {
            None => Vec::new(),
            Some(list) => {
                let ghost ids = hit_ids(
                    at_most(most_similar(scored(self.index.contents(), list@)), self.limit),
                );
                let got = self.compared(store, list);
                assert(fields_fetched(
                    old(store).history(),
                    store.history(),
                    ids,
                    json_list_outcome(got),
                ));
                examples_or_none(got)
            },
        }
    }
}

/// Begins to look for the examples of a request: similar ones where the request
/// could be embedded, and recent ones else. Where the store fails there are no
/// examples.
pub fn retrieve_examples(store: &mut SqliteStore, doc_type: DocType, embedded: bool) -> (r:
    Retrieval)
    ensures
        if embedded {
            exists|got: Result<Retrieval, StoreError>|
                {
                    &&& #[trigger] similarity_begun(
                        old(store).history(),
                        final(store).history(),
                        doc_type,
                        EXAMPLE_LIMIT,
                        got,
                    )
                    &&& match got {
                        Ok(found) => r == found,
                        Err(_) => r matches Retrieval::Examples(v) && v@.len() == 0,
                    }
                }
        } else {
            &&& asked_for_recent(
                old(store).history(),
                final(store).history(),
                doc_type,
                EXAMPLE_LIMIT,
            )
            &&& r matches Retrieval::Examples(v) && match fields_list(
                answer(final(store).history()),
            ) {
                Ok(list) => items_view(v@) == list,
                Err(_) => v@.len() == 0,
            }
        },
{
    if embedded {
        let got = retrieve_by_similarity(store, doc_type, EXAMPLE_LIMIT);
        assert(similarity_begun(
            old(store).history(),
            store.history(),
            doc_type,
            EXAMPLE_LIMIT,
            got,
        ));
        match got {
            Ok(found) => found,
            Err(_) => Retrieval::Examples(Vec::new()),
        }
    } else {
        match retrieve(store, doc_type, EXAMPLE_LIMIT) {
            Ok(list) => Retrieval::Examples(list),
            Err(_) => Retrieval::Examples(Vec::new()),
        }
    }
}

// ---------------------------------------------------------------------------
// Laws
// ---------------------------------------------------------------------------

/// The examples that are retrieved for a kind are those that were kept last, the
/// last first, at most `limit` of them.
pub proof fn law_retrieval_gives_recent_examples(
    states: Seq<Tables>,
    before: Seq<Event>,
    after: Seq<Event>,
    doc_type: DocType,
    limit: usize,
)
    requires
        ran(states, after),
        asked_for_recent(before, after, doc_type, limit),
        answer(after) is Ok,
    ensures
        fields_list(answer(after)) == parsed_all(
            recent_texts(after_events(states, before.len()), doc_type.thai(), limit as i64),
        ),
{
    law_recent_examples_are_read(states, before, after, doc_type.thai(), limit as i64);
}

/// Where no example of a kind has a vector, looking for similar examples gives
/// what retrieving the recent ones gives, whatever vectors other kinds have.
pub proof fn law_similarity_without_vectors_is_recency(
    states: Seq<Tables>,
    before: Seq<Event>,
    after: Seq<Event>,
    doc_type: DocType,
    limit: usize,
    r: Result<Retrieval, StoreError>,
)
    requires
        ran(states, after),
        similarity_begun(before, after, doc_type, limit, r),
        where_true(
            after_events(states, before.len()).memory,
            has_vector(Some(doc_type.thai())),
        ).len() == 0,
        forall|i: int|
            before.len() <= i < after.len() ==> (#[trigger] after[i])->Query_rows is Ok,
    ensures
        match parsed_all(
            recent_texts(after_events(states, before.len()), doc_type.thai(), limit as i64),
        ) {
            Ok(list) => r matches Ok(Retrieval::Examples(v)) && items_view(v@) == list,
            Err(f) => r matches Err(e) && e@ == f,
        },
{
    let n = before.len() as int;
    let first = after.take(n + 1);
    lemma_ran_part(states, after, n + 1);
    let held = states.take(n + 2);
    assert(first.last() == after[n]);
    assert(after_events(held, before.len()) == after_events(states, before.len()));
    let list = law_vectors_are_read(held, before, first, Some(doc_type.thai()));
    lemma_same_rows_len(
        list,
        where_true(
            after_events(states, before.len()).memory,
            has_vector(Some(doc_type.thai())),
        ),
    );
    assert(after.last() == after[n + 1]);
    assert(obeys(states[n], after[n], states[n + 1]));
    law_retrieval_gives_recent_examples(states, first, after, doc_type, limit);
}

} // verus!
