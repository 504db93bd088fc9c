//! Finding blocks of a general document: how well a block matches a question,
//! which blocks come first, and what of them a prompt shows.
use vstd::prelude::*;

use crate::error::bad_request;
use crate::error::BAD_REQUEST;
use crate::error::ApiError;
use crate::general_store::GeneralDocumentBlock;
use crate::general_store::GeneralDocumentBlockView;
use crate::general_store::GeneralDocumentPage;
use crate::general_store::GeneralDocumentPageView;
use crate::number::decimal;
use crate::number::show_i64;
use crate::sort::law_sorted_order;
use crate::sort::law_sorted_order_leaves_none_out;
use crate::sort::positions;
use crate::sort::precedes;
use crate::sort::sort_order;
use crate::sort::sorted_order;
use crate::sort::SortKey;
use crate::sqlite::meanings;
use crate::sqlite::Record;
use crate::text::cat3;
use crate::text::contains;
use crate::text::copy_option;
use crate::text::first_chars;
use crate::text::has_text;
use crate::text::join;
use crate::text::joined;
use crate::text::keep_nonblank;
use crate::text::lemma_assoc;
use crate::text::lemma_end_stands;
use crate::text::lemma_front_holds;
use crate::text::lemma_holds_deeper;
use crate::text::lemma_joined_holds;
use crate::text::lemma_joined_in_order;
use crate::text::lemma_nonblank_ascends;
use crate::text::lemma_nonblank_at;
use crate::text::lemma_stands_between;
use crate::text::nonblank;
use crate::text::opt_str;
use crate::text::opt_text;
use crate::text::push_text;
use crate::text::same;
use crate::text::shows_in_order;
use crate::text::split_whitespace;
use crate::text::string_or;
use crate::text::text_or;
use crate::text::texts;
use crate::text::trim;
use crate::text::trimmed;
use crate::text::truncate_chars;
use crate::text::words_of;
use crate::unicode::lowercase;
use crate::vectors::at_most;

verus! {

impl GeneralDocumentBlock {
    /// A copy of the block.
    pub fn copy(&self) -> (r: GeneralDocumentBlock)
        ensures
            r.meaning() == self.meaning(),
    {
        GeneralDocumentBlock {
            id: self.id,
            document_id: self.document_id,
            page_number: self.page_number,
            block_index: self.block_index,
            block_type: self.block_type.clone(),
            text: copy_option(&self.text),
            bbox_json: copy_option(&self.bbox_json),
            style_json: copy_option(&self.style_json),
            image_path: copy_option(&self.image_path),
            embedding: copy_option(&self.embedding),
            created_at: self.created_at.clone(),
            updated_at: self.updated_at.clone(),
        }
    }
}

// ---------------------------------------------------------------------------
// Which blocks are searched
// ---------------------------------------------------------------------------

/// Which blocks a search is about.
pub struct Scope<'a> {
    pub page_start: Option<i64>,
    pub page_end: Option<i64>,
    pub block_type: Option<&'a str>,
}

/// Whether a search is about a block.
pub open spec fn in_scope(block: GeneralDocumentBlockView, scope: Scope<'_>) -> bool {
    &&& (scope.page_start matches Some(start) ==> block.page_number >= start)
    &&& (scope.page_end matches Some(end) ==> block.page_number <= end)
    &&& (opt_str(scope.block_type) matches Some(kind) ==> block.block_type == kind)
}

/// The blocks that a search is about, in the order in which they are.
pub open spec fn scoped(
    blocks: Seq<GeneralDocumentBlockView>,
    scope: Scope<'_>,
) -> Seq<GeneralDocumentBlockView>
    decreases blocks.len(),
{
    if blocks.len() == 0 {
        Seq::empty()
    } else {
        let before = scoped(blocks.drop_last(), scope);
        if in_scope(blocks.last(), scope) {
            before.push(blocks.last())
        } else {
            before
        }
    }
}

/// Whether a search is about a block.
pub fn block_in_scope(block: &GeneralDocumentBlock, scope: &Scope<'_>) -> (r: bool)
    ensures
        r == in_scope(block.meaning(), *scope),
{
    match scope.page_start {
        Some(start) => {
            if block.page_number < start {
                return false;
            }
        },
        None => {},
    }
    match scope.page_end {
        Some(end) => {
            if block.page_number > end {
                return false;
            }
        },
        None => {},
    }
    match scope.block_type {
        Some(kind) => same(block.block_type.as_str(), kind),
        None => true,
    }
}

/// The blocks that a search is about.
pub fn blocks_in_scope(blocks: &Vec<GeneralDocumentBlock>, scope: &Scope<'_>) -> (r: Vec<
    GeneralDocumentBlock,
>)
    ensures
        meanings(r@) == scoped(meanings(blocks@), *scope),
        forall|i: int|
            0 <= i < r@.len() ==> {
                let block = #[trigger] r@[i];
                &&& scope.page_start matches Some(start) ==> block.page_number >= start
                &&& scope.page_end matches Some(end) ==> block.page_number <= end
                &&& scope.block_type matches Some(kind) ==> block.block_type@ == kind@
            },
{
    let ghost all = meanings(blocks@);
    let mut out: Vec<GeneralDocumentBlock> = Vec::new();
    assert(meanings(out@) =~= scoped(all.take(0), *scope));
    let mut i: usize = 0;
    while i < blocks.len()
        invariant
            i <= blocks@.len(),
            all == meanings(blocks@),
            meanings(out@) == scoped(all.take(i as int), *scope),
        decreases blocks@.len() - i,
    {
        let ghost before = out@;
        proof {
            assert(all.take(i as int + 1).drop_last() =~= all.take(i as int));
            assert(all.take(i as int + 1).last() == blocks@[i as int].meaning());
        }
        if block_in_scope(&blocks[i], scope) {
            let block = blocks[i].copy();
            out.push(block);
            assert(meanings(out@) =~= meanings(before).push(block.meaning()));
        }
        i += 1;
    }
    assert(all.take(all.len() as int) =~= all);
    proof {
        let at = law_search_keeps_to_its_bounds(all, *scope);
        assert forall|i: int| 0 <= i < out@.len() implies {
            let block = #[trigger] out@[i];
            &&& scope.page_start matches Some(start) ==> block.page_number >= start
            &&& scope.page_end matches Some(end) ==> block.page_number <= end
            &&& scope.block_type matches Some(kind) ==> block.block_type@ == kind@
        } by {
            assert(out@[i].meaning() == meanings(out@)[i]);
            assert(meanings(out@)[i] == scoped(all, *scope)[i]);
        }
    }
    out
}

/// A search is about the blocks within the bounds that it was given, and about
/// all of them: none from before its first page, none from behind its last page,
/// none of another type; and they stay in their order. `at` says where each of
/// them was.
pub proof fn law_search_keeps_to_its_bounds(
    blocks: Seq<GeneralDocumentBlockView>,
    scope: Scope<'_>,
) -> (at: Seq<int>)
    ensures
        at.len() == scoped(blocks, scope).len(),
        forall|i: int|
            0 <= i < at.len() ==> 0 <= #[trigger] at[i] < blocks.len() && scoped(blocks, scope)[i]
                == blocks[at[i]],
        forall|i: int, j: int| 0 <= i < j < at.len() ==> #[trigger] at[i] < #[trigger] at[j],
        forall|i: int|
            0 <= i < scoped(blocks, scope).len() ==> {
                let block = #[trigger] scoped(blocks, scope)[i];
                &&& scope.page_start matches Some(start) ==> block.page_number >= start
                &&& scope.page_end matches Some(end) ==> block.page_number <= end
                &&& scope.block_type matches Some(kind) ==> block.block_type == kind@
            },
        forall|j: int|
            0 <= j < blocks.len() && !(scope.page_start matches Some(start) && (
            #[trigger] blocks[j]).page_number < start) && !(scope.page_end matches Some(end)
                && blocks[j].page_number > end) && !(scope.block_type matches Some(kind)
                && blocks[j].block_type != kind@) ==> at.contains(j),
    decreases blocks.len(),
{
    if blocks.len() == 0 {
        Seq::empty()
    } else {
        let n = blocks.len() - 1;
        let front = blocks.drop_last();
        let before = law_search_keeps_to_its_bounds(front, scope);
        let last = blocks.last();
        let kept = !(scope.page_start matches Some(start) && last.page_number < start) && !(
        scope.page_end matches Some(end) && last.page_number > end) && !(
        scope.block_type matches Some(kind) && last.block_type != kind@);
        let at = if kept {
            before.push(n)
        } else {
            before
        };
        let list = scoped(blocks, scope);
        let earlier = scoped(front, scope);
        assert(list == if kept {
            earlier.push(last)
        } else {
            earlier
        });
        assert forall|i: int| 0 <= i < at.len() implies 0 <= #[trigger] at[i] < blocks.len()
            && list[i] == blocks[at[i]] by {
            if i < before.len() {
                assert(at[i] == before[i]);
                assert(front[before[i]] == blocks[before[i]]);
            }
        }
        assert forall|i: int, j: int| 0 <= i < j < at.len() implies #[trigger] at[i]
            < #[trigger] at[j] by {
            assert(at[i] == before[i]);
            if j < before.len() {
                assert(at[j] == before[j]);
            }
        }
        assert forall|i: int| 0 <= i < list.len() implies {
            let block = #[trigger] list[i];
            &&& scope.page_start matches Some(start) ==> block.page_number >= start
            &&& scope.page_end matches Some(end) ==> block.page_number <= end
            &&& scope.block_type matches Some(kind) ==> block.block_type == kind@
        } by {
            if i < earlier.len() {
                assert(list[i] == earlier[i]);
            }
        }
        assert forall|j: int|
            0 <= j < blocks.len() && !(scope.page_start matches Some(start) && (
            #[trigger] blocks[j]).page_number < start) && !(scope.page_end matches Some(end)
                && blocks[j].page_number > end) && !(scope.block_type matches Some(kind)
                && blocks[j].block_type != kind@) implies at.contains(j) by {
            if j < n {
                assert(front[j] == blocks[j]);
                assert(before.contains(j));
                let i = choose|i: int| 0 <= i < before.len() && before[i] == j;
                assert(at[i] == j);
            } else {
                assert(at[before.len() as int] == n);
            }
        }
        at
    }
}

// ---------------------------------------------------------------------------
// How well a text matches
// ---------------------------------------------------------------------------

/// A fraction.
#[derive(Clone, Copy, Debug, PartialEq, Eq, Structural)]
pub struct Fraction {
    pub part: usize,
    pub whole: usize,
}

/// How many of the words stand in a text.
pub open spec fn words_found(words: Seq<Seq<char>>, text: Seq<char>) -> nat
    decreases words.len(),
{
    if words.len() == 0 {
        0
    } else {
        words_found(words.drop_last(), text) + (if has_text(text, words.last()) {
            1nat
        } else {
            0nat
        })
    }
}

/// The fraction of the words of a question that stand in a text, both in lower
/// case. It is one where the whole question does, and nothing of nothing where
/// the question has no words.
pub open spec fn lexical_share(query: Seq<char>, text: Seq<char>) -> (nat, nat) {
    if has_text(text, query) {
        (1, 1)
    } else {
        (words_found(words_of(query), text), words_of(query).len())
    }
}

/// The fraction of the words of a question that stand in a text, both in lower
/// case.
pub fn lexical_fraction(query_lower: &str, text_lower: &str) -> (r: Fraction)
    ensures
        (r.part as nat, r.whole as nat) == lexical_share(query_lower@, text_lower@),
        r.part <= r.whole,
{
    if contains(text_lower, query_lower) {
        return Fraction { part: 1, whole: 1 };
    }
    let words = split_whitespace(query_lower);
    let ghost all = texts(words@);
    let mut found: usize = 0;
    let mut i: usize = 0;
    assert(all.take(0) =~= Seq::empty());
    while i < words.len()
        invariant
            i <= words@.len(),
            all == texts(words@),
            found <= i,
            found == words_found(all.take(i as int), text_lower@),
        decreases words@.len() - i,
    {
        proof {
            assert(all.take(i as int + 1).drop_last() =~= all.take(i as int));
            assert(all.take(i as int + 1).last() == words@[i as int]@);
        }
        if contains(text_lower, words[i].as_str()) {
            found += 1;
        }
        i += 1;
    }
    assert(all.take(all.len() as int) =~= all);
    Fraction { part: found, whole: words.len() }
}

/// The fraction of the words of a question, in lower case, that stand in a text.
pub fn lexical_score(query_lower: &str, text: &str) -> (r: Fraction)
    ensures
        (r.part as nat, r.whole as nat) == lexical_share(query_lower@, lowercase(text@)),
        r.part <= r.whole,
{
    let text_lower = text.to_lowercase();
    lexical_fraction(query_lower, text_lower.as_str())
}

proof fn lemma_words_found(words: Seq<Seq<char>>, text: Seq<char>)
    ensures
        words_found(words, text) <= words.len(),
        words_found(words, text) == words.len() <==> (forall|i: int|
            0 <= i < words.len() ==> has_text(text, #[trigger] words[i])),
        words_found(words, text) == 0 <==> (forall|i: int|
            0 <= i < words.len() ==> !has_text(text, #[trigger] words[i])),
    decreases words.len(),
{
    if words.len() > 0 {
        let before = words.drop_last();
        let n = words.len() - 1;
        lemma_words_found(before, text);
        assert(words[n] == words.last());
        assert forall|i: int| 0 <= i < n implies before[i] == #[trigger] words[i] by {}
        if words_found(words, text) == words.len() {
            assert forall|i: int| 0 <= i < words.len() implies has_text(
                text,
                #[trigger] words[i],
            ) by {
                if i < n {
                    assert(has_text(text, before[i]));
                }
            }
        }
        if words_found(words, text) == 0 {
            assert forall|i: int| 0 <= i < words.len() implies !has_text(
                text,
                #[trigger] words[i],
            ) by {
                if i < n {
                    assert(!has_text(text, before[i]));
                }
            }
        }
        if forall|i: int| 0 <= i < words.len() ==> has_text(text, #[trigger] words[i]) {
            assert forall|i: int| 0 <= i < before.len() implies has_text(
                text,
                #[trigger] before[i],
            ) by {
                assert(has_text(text, words[i]));
            }
            assert(has_text(text, words[n]));
        }
        if forall|i: int| 0 <= i < words.len() ==> !has_text(text, #[trigger] words[i]) {
            assert forall|i: int| 0 <= i < before.len() implies !has_text(
                text,
                #[trigger] before[i],
            ) by {
                assert(!has_text(text, words[i]));
            }
            assert(!has_text(text, words[n]));
        }
    }
}

/// A text that holds the whole question matches it fully. Otherwise it matches
/// fully where it holds each word of the question, and not at all where it holds
/// none.
pub proof fn law_texts_match_by_their_words(query: Seq<char>, text: Seq<char>)
    ensures
        ({
            let share = lexical_share(query, text);
            let words = words_of(query);
            &&& share.0 <= share.1
            &&& has_text(text, query) ==> share.0 == 1 && share.1 == 1
            &&& !has_text(text, query) ==> share.1 == words.len()
            &&& !has_text(text, query) ==> (share.0 == share.1 <==> (forall|i: int|
                0 <= i < words.len() ==> has_text(text, #[trigger] words[i])))
            &&& !has_text(text, query) ==> (share.0 == 0 <==> (forall|i: int|
                0 <= i < words.len() ==> !has_text(text, #[trigger] words[i])))
        }),
{
    lemma_words_found(words_of(query), text);
}

/// The fraction of the words of a question that stand in a block, whatever the
/// case of either; nothing of nothing where the block has no text.
pub open spec fn block_share(query: Seq<char>, block: GeneralDocumentBlockView) -> (nat, nat) {
    match block.text {
        Some(text) => lexical_share(lowercase(query), lowercase(text)),
        None => (0, 0),
    }
}

/// The fraction of the words of a question that stand in each of the blocks.
pub fn lexical_scores(query: &str, blocks: &Vec<GeneralDocumentBlock>) -> (r: Vec<Fraction>)
    ensures
        r@.len() == blocks@.len(),
        forall|i: int|
            0 <= i < r@.len() ==> ((#[trigger] r@[i]).part as nat, r@[i].whole as nat)
                == block_share(query@, blocks@[i].meaning()) && r@[i].part <= r@[i].whole,
{
    let query_lower = query.to_lowercase();
    let mut out: Vec<Fraction> = Vec::new();
    let mut i: usize = 0;
    while i < blocks.len()
        invariant
            i <= blocks@.len(),
            query_lower@ == lowercase(query@),
            out@.len() == i,
            forall|k: int|
                0 <= k < i ==> ((#[trigger] out@[k]).part as nat, out@[k].whole as nat)
                    == block_share(query@, blocks@[k].meaning()) && out@[k].part <= out@[k].whole,
        decreases blocks@.len() - i,
    {
        let share = match &blocks[i].text {
            Some(text) => lexical_score(query_lower.as_str(), text.as_str()),
            None => Fraction { part: 0, whole: 0 },
        };
        out.push(share);
        i += 1;
    }
    out
}

// ---------------------------------------------------------------------------
// Which blocks come first
// ---------------------------------------------------------------------------

/// A block that matches.
#[derive(Debug)]
pub struct Hit {
    /// A number that is larger the better the block matches, and zero where it
    /// does not match at all.
    pub key: u32,
    /// How well it matches, as it is shown.
    pub label: String,
    pub block: GeneralDocumentBlock,
}

/// What a block that matches is.
pub struct HitView {
    pub key: u32,
    pub label: Seq<char>,
    pub block: GeneralDocumentBlockView,
}

impl Hit {
    pub open spec fn view(&self) -> HitView {
        HitView { key: self.key, label: self.label@, block: self.block.meaning() }
    }

    /// A copy of the hit.
    pub fn copy(&self) -> (r: Hit)
        ensures
            r@ == self@,
    {
        Hit { key: self.key, label: self.label.clone(), block: self.block.copy() }
    }
}

/// The hits of a list.
pub open spec fn hit_views(hits: Seq<Hit>) -> Seq<HitView> {
    Seq::new(hits.len(), |i: int| hits[i]@)
}

/// What hits are sorted by: the best first, and of equally good ones the one
/// that comes first in the document.
pub open spec fn hit_key(hit: HitView) -> SortKey {
    SortKey {
        first: (0 - hit.key) as i64,
        second: hit.block.page_number,
        third: hit.block.block_index,
    }
}

/// The keys of hits.
pub open spec fn hit_keys(hits: Seq<HitView>) -> Seq<SortKey> {
    Seq::new(hits.len(), |i: int| hit_key(hits[i]))
}

/// The hits in the order in which they come.
pub open spec fn ranked(hits: Seq<HitView>) -> Seq<HitView> {
    let order = sorted_order(hit_keys(hits));
    Seq::new(order.len(), |i: int| hits[order[i]])
}

/// The hits of blocks that match at all.
pub open spec fn matching(hits: Seq<HitView>) -> Seq<HitView>
    decreases hits.len(),
{
    if hits.len() == 0 {
        Seq::empty()
    } else {
        let before = matching(hits.drop_last());
        if hits.last().key > 0 {
            before.push(hits.last())
        } else {
            before
        }
    }
}

/// The hits of blocks that match at all.
fn keep_matching(hits: &Vec<Hit>) -> (r: Vec<Hit>)
    ensures
        hit_views(r@) == matching(hit_views(hits@)),
{
    let ghost all = hit_views(hits@);
    let mut out: Vec<Hit> = Vec::new();
    assert(hit_views(out@) =~= matching(all.take(0)));
    let mut i: usize = 0;
    while i < hits.len()
        invariant
            i <= hits@.len(),
            all == hit_views(hits@),
            hit_views(out@) == matching(all.take(i as int)),
        decreases hits@.len() - i,
    {
        let hit = &hits[i];
        let ghost before = out@;
        proof {
            assert(all.take(i as int + 1).drop_last() =~= all.take(i as int));
            assert(all.take(i as int + 1).last() == hit@);
        }
        if hit.key > 0 {
            let kept = hit.copy();
            out.push(kept);
            assert(hit_views(out@) =~= hit_views(before).push(kept@));
        }
        i += 1;
    }
    assert(all.take(all.len() as int) =~= all);
    out
}

/// The blocks that match, the best first, and of equally good ones the one that
/// comes first in the document.
pub fn rank_general_blocks(hits: &Vec<Hit>) -> (r: Vec<Hit>)
    ensures
        hit_views(r@) == ranked(matching(hit_views(hits@))),
{
    let kept = keep_matching(hits);
    sort_hits(&kept)
}

/// The hits that are shown: the best of those that match.
pub fn best_hits(hits: &Vec<Hit>, limit: usize) -> (r: Vec<Hit>)
    ensures
        ({
            let all = ranked(matching(hit_views(hits@)));
            hit_views(r@) == if all.len() <= limit {
                all
            } else {
                all.take(limit as int)
            }
        }),
{
    let mut list = rank_general_blocks(hits);
    let ghost all = hit_views(list@);
    if list.len() > limit {
        list.truncate(limit);
        assert(hit_views(list@) =~= all.take(limit as int));
    }
    list
}

/// Sorts hits: the best first, and of equally good ones the one that comes
/// first in the document.
fn sort_hits(hits: &Vec<Hit>) -> (r: Vec<Hit>)
    ensures
        hit_views(r@) == ranked(hit_views(hits@)),
{
    let ghost views = hit_views(hits@);
    let mut keys: Vec<SortKey> = Vec::new();
    let mut i: usize = 0;
    while i < hits.len()
        invariant
            i <= hits@.len(),
            views == hit_views(hits@),
            keys@.len() == i,
            forall|k: int| 0 <= k < i ==> (#[trigger] keys@[k]) == hit_key(views[k]),
        decreases hits@.len() - i,
    {
        let hit = &hits[i];
        keys.push(
            SortKey {
                first: 0 - (hit.key as i64),
                second: hit.block.page_number,
                third: hit.block.block_index,
            },
        );
        i += 1;
    }
    assert(keys@ =~= hit_keys(views));
    let order = sort_order(&keys);
    let mut out: Vec<Hit> = Vec::new();
    let mut i: usize = 0;
    while i < order.len()
        invariant
            i <= order@.len(),
            views == hit_views(hits@),
            order@.len() == hits@.len(),
            forall|k: int| 0 <= k < order@.len() ==> (#[trigger] order@[k]) < hits@.len(),
            out@.len() == i,
            forall|k: int| 0 <= k < i ==> (#[trigger] out@[k])@ == views[order@[k] as int],
        decreases order@.len() - i,
    {
        out.push(hits[order[i]].copy());
        i += 1;
    }
    proof {
        assert forall|k: int| 0 <= k < out@.len() implies #[trigger] hit_views(out@)[k] == ranked(
            views,
        )[k] by {
            assert(positions(order@)[k] == order@[k]);
        }
        assert(hit_views(out@) =~= ranked(views));
    }
    out
}

/// A better hit comes before a worse one, and of equally good ones the one that
/// comes first in the document does; none is lost and none is added.
pub proof fn law_best_hits_come_first(hits: Seq<HitView>, i: int, j: int)
    requires
        0 <= i < j < hits.len(),
    ensures
        ranked(hits).len() == hits.len(),
        ({
            let a = ranked(hits)[i];
            let b = ranked(hits)[j];
            &&& a.key >= b.key
            &&& a.key == b.key ==> a.block.page_number <= b.block.page_number
            &&& a.key == b.key && a.block.page_number == b.block.page_number
                ==> a.block.block_index <= b.block.block_index
        }),
        crate::sort::takes_each_once(sorted_order(hit_keys(hits)), hits.len()),
{
    let keys = hit_keys(hits);
    law_sorted_order(keys);
    let order = sorted_order(keys);
    let x = order[i];
    let y = order[j];
    assert(0 <= x < hits.len() && 0 <= y < hits.len());
    assert(keys[x] == hit_key(hits[x]));
    assert(keys[y] == hit_key(hits[y]));
    assert(!precedes(keys[y], keys[x]));
}

/// The hits that match are those with a score, in their order.
proof fn lemma_matching(hits: Seq<HitView>)
    ensures
        forall|i: int|
            0 <= i < matching(hits).len() ==> (#[trigger] matching(hits)[i]).key > 0
                && hits.contains(matching(hits)[i]),
        forall|j: int|
            0 <= j < hits.len() && (#[trigger] hits[j]).key > 0 ==> matching(hits).contains(
                hits[j],
            ),
    decreases hits.len(),
{
    if hits.len() > 0 {
        let front = hits.drop_last();
        lemma_matching(front);
        let before = matching(front);
        let list = matching(hits);
        assert forall|i: int| 0 <= i < list.len() implies (#[trigger] list[i]).key > 0
            && hits.contains(list[i]) by {
            if i < before.len() {
                assert(list[i] == before[i]);
                let k = choose|k: int| 0 <= k < front.len() && front[k] == before[i];
                assert(hits[k] == list[i]);
            } else {
                assert(hits[hits.len() - 1] == list[i]);
            }
        }
        assert forall|j: int| 0 <= j < hits.len() && (
        #[trigger] hits[j]).key > 0 implies list.contains(hits[j]) by {
            if j < front.len() {
                assert(front[j] == hits[j]);
                assert(before.contains(front[j]));
                let k = choose|k: int| 0 <= k < before.len() && before[k] == hits[j];
                assert(list[k] == hits[j]);
            } else {
                assert(list[list.len() - 1] == hits[j]);
            }
        }
    }
}

/// What a search shows of its hits: at most as many as asked for, only hits that
/// match at all, and the best of those: a hit that matches and is not shown is no
/// better than any that is, and is left out only where there is no room.
pub proof fn law_search_shows_the_best(hits: Seq<HitView>, limit: usize, j: int)
    requires
        0 <= j < hits.len(),
    ensures
        ({
            let all = ranked(matching(hits));
            let shown = at_most(all, limit);
            &&& shown.len() <= limit
            &&& forall|i: int|
                0 <= i < shown.len() ==> (#[trigger] shown[i]).key > 0 && hits.contains(shown[i])
            &&& forall|i: int, k: int|
                0 <= i < k < shown.len() ==> (#[trigger] shown[i]).key >= (#[trigger] shown[k]).key
            &&& hits[j].key > 0 ==> shown.contains(hits[j]) || shown.len() == limit && forall|
                i: int,
            |
                0 <= i < shown.len() ==> (#[trigger] shown[i]).key >= hits[j].key
        }),
{
    let kept = matching(hits);
    let keys = hit_keys(kept);
    let all = ranked(kept);
    let shown = at_most(all, limit);
    lemma_matching(hits);
    law_sorted_order(keys);
    let order = sorted_order(keys);
    assert forall|i: int| 0 <= i < all.len() implies (#[trigger] all[i]).key > 0 && hits.contains(
        all[i],
    ) by {
        assert(0 <= order[i] < kept.len());
        assert(all[i] == kept[order[i]]);
    }
    assert forall|i: int, k: int| 0 <= i < k < all.len() implies (#[trigger] all[i]).key >= (
    #[trigger] all[k]).key by {
        law_best_hits_come_first(kept, i, k);
    }
    if hits[j].key > 0 {
        assert(kept.contains(hits[j]));
        let x = choose|x: int| 0 <= x < kept.len() && kept[x] == hits[j];
        let i = law_sorted_order_leaves_none_out(keys, x);
        assert(all[i] == hits[j]);
        if i < shown.len() {
            assert(shown[i] == hits[j]);
        } else {
            assert forall|m: int| 0 <= m < shown.len() implies (#[trigger] shown[m]).key
                >= hits[j].key by {
                assert(shown[m] == all[m]);
            }
        }
    }
}

/// How many hits are shown: ten unless the caller says otherwise, at least one
/// and at most fifty.
pub fn search_limit(limit: Option<usize>) -> (r: usize)
    ensures
        1 <= r <= 50,
        r == (match limit {
            Some(n) => if n < 1 {
                1
            } else if n > 50 {
                50
            } else {
                n as int
            },
            None => 10,
        }),
{
    match limit {
        Some(n) => if n < 1 {
            1
        } else if n > 50 {
            50
        } else {
            n
        },
        None => 10,
    }
}

/// What is searched for, or why nothing is.
pub fn search_query(query: &str) -> (r: Result<String, ApiError>)
    ensures
        match r {
            Ok(q) => q@ == trimmed(query@) && q@.len() > 0,
            Err(e) => trimmed(query@).len() == 0 && e@ == bad_request("query is required"@),
        },
{
    let q = trim(query);
    if q.as_str().is_empty() {
        return Err(ApiError::new(BAD_REQUEST, "query is required"));
    }
    Ok(q)
}

// ---------------------------------------------------------------------------
// What a prompt shows of blocks
// ---------------------------------------------------------------------------

/// The most hits that a prompt shows.
pub const CONTEXT_HITS: usize = 8;

/// The most characters of a hit that a prompt shows.
pub const CONTEXT_CHARS: usize = 500;

/// Where a block is and what it is.
pub open spec fn block_place(block: GeneralDocumentBlockView) -> Seq<char> {
    "page="@ + decimal(block.page_number as int) + " block="@ + decimal(block.block_index as int)
        + " type="@ + block.block_type
}

/// The line that shows a hit.
pub open spec fn hit_line(hit: HitView) -> Seq<char> {
    block_place(hit.block) + " score="@ + hit.label + " bbox="@ + text_or(
        hit.block.bbox_json,
        "-"@,
    ) + " text="@ + first_chars(text_or(hit.block.text, ""@), CONTEXT_CHARS as nat)
}

/// The lines of the hits on a page, at most `limit` of them.
pub open spec fn hit_lines(hits: Seq<HitView>, page: i64, limit: nat) -> Seq<Seq<char>>
    decreases hits.len(),
{
    if hits.len() == 0 {
        Seq::empty()
    } else {
        let before = hit_lines(hits.drop_last(), page, limit);
        if hits.last().block.page_number == page && before.len() < limit {
            before.push(hit_line(hits.last()))
        } else {
            before
        }
    }
}

/// What a prompt shows of the hits on a page.
pub open spec fn page_context(hits: Seq<HitView>, page: i64) -> Seq<char> {
    let list = hit_lines(hits, page, CONTEXT_HITS as nat);
    if list.len() == 0 {
        "(ไม่มี block context ที่ match โดยตรง ใช้ข้อความหน้าปัจจุบันเป็นหลัก)"@
    } else {
        joined(list, "\n"@)
    }
}

/// What a prompt shows of the block it is about.
pub open spec fn block_context(block: GeneralDocumentBlockView) -> Seq<char> {
    block_place(block) + " bbox="@ + text_or(block.bbox_json, "-"@) + " text="@ + text_or(
        block.text,
        ""@,
    )
}

/// Where a block is and what it is.
fn describe_place(block: &GeneralDocumentBlock) -> (r: String)
    ensures
        r@ == block_place(block.meaning()),
{
    let mut s = cat3("page=", show_i64(block.page_number).as_str(), " block=");
    s.append(show_i64(block.block_index).as_str());
    s.append(" type=");
    s.append(block.block_type.as_str());
    s
}

/// What a prompt shows of the hits on a page.
pub fn general_context_for_page(hits: &Vec<Hit>, page_number: i64) -> (r: String)
    ensures
        r@ == page_context(hit_views(hits@), page_number),
{
    let ghost all = hit_views(hits@);
    let mut list: Vec<String> = Vec::new();
    assert(all.take(0) =~= Seq::empty());
    assert(texts(list@) =~= hit_lines(all.take(0), page_number, CONTEXT_HITS as nat));
    let mut i: usize = 0;
    while i < hits.len()
        invariant
            i <= hits@.len(),
            all == hit_views(hits@),
            texts(list@) == hit_lines(all.take(i as int), page_number, CONTEXT_HITS as nat),
        decreases hits@.len() - i,
    {
        let hit = &hits[i];
        proof {
            assert(all.take(i as int + 1).drop_last() =~= all.take(i as int));
            assert(all.take(i as int + 1).last() == hit@);
            assert(texts(list@).len() == list@.len());
        }
        if hit.block.page_number == page_number && list.len() < CONTEXT_HITS {
            let mut line = describe_place(&hit.block);
            line.append(" score=");
            line.append(hit.label.as_str());
            line.append(" bbox=");
            line.append(string_or(&hit.block.bbox_json, "-"));
            line.append(" text=");
            line.append(
                truncate_chars(string_or(&hit.block.text, ""), CONTEXT_CHARS).as_str(),
            );
            push_text(&mut list, line);
        }
        i += 1;
    }
    assert(all.take(all.len() as int) =~= all);
    if list.len() == 0 {
        return "(ไม่มี block context ที่ match โดยตรง ใช้ข้อความหน้าปัจจุบันเป็นหลัก)".to_owned();
    }
    join(&list, "\n")
}

/// What a prompt shows of the block it is about.
pub fn general_context_for_selected_block(block: &GeneralDocumentBlock) -> (r: String)
    ensures
        r@ == block_context(block.meaning()),
{
    let mut s = describe_place(block);
    s.append(" bbox=");
    s.append(string_or(&block.bbox_json, "-"));
    s.append(" text=");
    s.append(string_or(&block.text, ""));
    s
}

// ---------------------------------------------------------------------------
// The text of a page
// ---------------------------------------------------------------------------

/// The blocks of a page, in the order in which they are.
pub open spec fn on_page(
    blocks: Seq<GeneralDocumentBlockView>,
    page: i64,
) -> Seq<GeneralDocumentBlockView>
    decreases blocks.len(),
{
    if blocks.len() == 0 {
        Seq::empty()
    } else {
        let before = on_page(blocks.drop_last(), page);
        if blocks.last().page_number == page {
            before.push(blocks.last())
        } else {
            before
        }
    }
}

/// What blocks are sorted by.
pub open spec fn index_keys(blocks: Seq<GeneralDocumentBlockView>) -> Seq<SortKey> {
    Seq::new(
        blocks.len(),
        |i: int| SortKey { first: blocks[i].block_index, second: 0, third: 0 },
    )
}

/// The blocks in the order of their numbers.
pub open spec fn by_index(blocks: Seq<GeneralDocumentBlockView>) -> Seq<
    GeneralDocumentBlockView,
> {
    let order = sorted_order(index_keys(blocks));
    Seq::new(order.len(), |i: int| blocks[order[i]])
}

/// The blocks in the order of their numbers.
pub fn sort_blocks(blocks: &Vec<GeneralDocumentBlock>) -> (r: Vec<GeneralDocumentBlock>)
    ensures
        meanings(r@) == by_index(meanings(blocks@)),
{
    let ghost views = meanings(blocks@);
    let mut keys: Vec<SortKey> = Vec::new();
    let mut i: usize = 0;
    while i < blocks.len()
        invariant
            i <= blocks@.len(),
            views == meanings(blocks@),
            keys@.len() == i,
            forall|k: int| 0 <= k < i ==> (#[trigger] keys@[k]) == index_keys(views)[k],
        decreases blocks@.len() - i,
    {
        keys.push(SortKey { first: blocks[i].block_index, second: 0, third: 0 });
        i += 1;
    }
    assert(keys@ =~= index_keys(views));
    let order = sort_order(&keys);
    let mut out: Vec<GeneralDocumentBlock> = Vec::new();
    let mut i: usize = 0;
    while i < order.len()
        invariant
            i <= order@.len(),
            views == meanings(blocks@),
            order@.len() == blocks@.len(),
            forall|k: int| 0 <= k < order@.len() ==> (#[trigger] order@[k]) < blocks@.len(),
            out@.len() == i,
            forall|k: int| 0 <= k < i ==> (#[trigger] out@[k]).meaning() == views[order@[k] as int],
        decreases order@.len() - i,
    {
        out.push(blocks[order[i]].copy());
        i += 1;
    }
    proof {
        assert forall|k: int| 0 <= k < out@.len() implies #[trigger] meanings(out@)[k]
            == by_index(views)[k] by {
            assert(positions(order@)[k] == order@[k]);
        }
        assert(meanings(out@) =~= by_index(views));
    }
    out
}

/// The blocks of a page in the order of their numbers.
pub fn blocks_for_page(blocks: &Vec<GeneralDocumentBlock>, page_number: i64) -> (r: Vec<
    GeneralDocumentBlock,
>)
    ensures
        meanings(r@) == by_index(on_page(meanings(blocks@), page_number)),
{
    let kept = keep_page(blocks, page_number);
    sort_blocks(&kept)
}

/// The blocks of a page, in the order in which they are.
pub fn keep_page(blocks: &Vec<GeneralDocumentBlock>, page_number: i64) -> (r: Vec<
    GeneralDocumentBlock,
>)
    ensures
        meanings(r@) == on_page(meanings(blocks@), page_number),
{
    let ghost all = meanings(blocks@);
    let mut out: Vec<GeneralDocumentBlock> = Vec::new();
    assert(meanings(out@) =~= on_page(all.take(0), page_number));
    let mut i: usize = 0;
    while i < blocks.len()
        invariant
            i <= blocks@.len(),
            all == meanings(blocks@),
            meanings(out@) == on_page(all.take(i as int), page_number),
        decreases blocks@.len() - i,
    {
        let ghost before = out@;
        proof {
            assert(all.take(i as int + 1).drop_last() =~= all.take(i as int));
            assert(all.take(i as int + 1).last() == blocks@[i as int].meaning());
        }
        if blocks[i].page_number == page_number {
            let block = blocks[i].copy();
            out.push(block);
            assert(meanings(out@) =~= meanings(before).push(block.meaning()));
        }
        i += 1;
    }
    assert(all.take(all.len() as int) =~= all);
    out
}

/// How many of the first `n` blocks are on a page.
spec fn count_on_page(blocks: Seq<GeneralDocumentBlockView>, page: i64, n: int) -> int
    decreases n,
{
    if n <= 0 {
        0
    } else {
        count_on_page(blocks, page, n - 1) + (if blocks[n - 1].page_number == page {
            1int
        } else {
            0int
        })
    }
}

/// Whether a block is one of those on a page, `m` of which stand before it.
spec fn taken_over(
    blocks: Seq<GeneralDocumentBlockView>,
    page: i64,
    m: int,
    block: GeneralDocumentBlockView,
) -> bool {
    exists|j: int|
        0 <= j < blocks.len() && (#[trigger] blocks[j]).page_number == page && count_on_page(
            blocks,
            page,
            j,
        ) == m && block == blocks[j]
}

/// Where a block of a page stands among the blocks of the page.
proof fn lemma_on_page_at(blocks: Seq<GeneralDocumentBlockView>, page: i64, n: int)
    requires
        0 <= n <= blocks.len(),
    ensures
        on_page(blocks.take(n), page).len() == count_on_page(blocks, page, n),
        0 <= count_on_page(blocks, page, n) <= n,
        forall|j: int|
            0 <= j < n && (#[trigger] blocks[j]).page_number == page ==> 0 <= count_on_page(
                blocks,
                page,
                j,
            ) < count_on_page(blocks, page, n) && on_page(blocks.take(n), page)[count_on_page(
                blocks,
                page,
                j,
            )] == blocks[j],
        forall|m: int|
            0 <= m < on_page(blocks.take(n), page).len() ==> #[trigger] taken_over(
                blocks,
                page,
                m,
                on_page(blocks.take(n), page)[m],
            ),
    decreases n,
{
    if n > 0 {
        lemma_on_page_at(blocks, page, n - 1);
        let now = blocks.take(n);
        let was = blocks.take(n - 1);
        assert(now.drop_last() =~= was);
        assert(now.last() == blocks[n - 1]);
        let before = on_page(was, page);
        let list = on_page(now, page);
        assert forall|j: int| 0 <= j < n && (#[trigger] blocks[j]).page_number
            == page implies 0 <= count_on_page(blocks, page, j) < count_on_page(blocks, page, n)
            && list[count_on_page(blocks, page, j)] == blocks[j] by {
            if j < n - 1 {
                assert(list[count_on_page(blocks, page, j)] == before[count_on_page(
                    blocks,
                    page,
                    j,
                )]);
            }
        }
        assert forall|m: int| 0 <= m < list.len() implies #[trigger] taken_over(
            blocks,
            page,
            m,
            list[m],
        ) by {
            if m < before.len() {
                assert(list[m] == before[m]);
                assert(taken_over(blocks, page, m, before[m]));
            } else {
                assert(m == count_on_page(blocks, page, n - 1));
                assert(list[m] == blocks[n - 1]);
            }
        }
    } else {
        assert(on_page(blocks.take(n), page) =~= Seq::empty());
    }
}

/// Blocks that come later stand later among those of their page.
proof fn lemma_count_ascends(blocks: Seq<GeneralDocumentBlockView>, page: i64, i: int, j: int)
    requires
        0 <= i < j < blocks.len(),
        blocks[i].page_number == page,
    ensures
        count_on_page(blocks, page, i) < count_on_page(blocks, page, j),
    decreases j - i,
{
    if i + 1 < j {
        lemma_count_ascends(blocks, page, i, j - 1);
    }
}

/// The blocks of a page are those that have its number, each of them once, in the
/// order of their own numbers; blocks with the same number stay in the order in
/// which they were. `at` says where each of them has come.
pub proof fn law_page_has_its_blocks_in_order(
    blocks: Seq<GeneralDocumentBlockView>,
    page: i64,
) -> (at: spec_fn(int) -> int)
    ensures
        ({
            let own = by_index(on_page(blocks, page));
            &&& forall|j: int|
                0 <= j < blocks.len() && blocks[j].page_number == page ==> 0 <= #[trigger] at(j)
                    < own.len() && own[at(j)] == blocks[j]
            &&& forall|m: int|
                0 <= m < own.len() ==> (#[trigger] own[m]).page_number == page && blocks.contains(
                    own[m],
                )
            &&& forall|i: int, j: int|
                0 <= i < blocks.len() && 0 <= j < blocks.len() && blocks[i].page_number == page
                    && blocks[j].page_number == page && (blocks[i].block_index
                    < blocks[j].block_index || blocks[i].block_index == blocks[j].block_index && i
                    < j) ==> #[trigger] at(i) < #[trigger] at(j)
            &&& own.len() <= blocks.len()
        }),
{
    let list = on_page(blocks, page);
    let keys = index_keys(list);
    let order = sorted_order(keys);
    let own = by_index(list);
    let n = blocks.len() as int;
    assert(blocks.take(n) =~= blocks);
    lemma_on_page_at(blocks, page, n);
    law_sorted_order(keys);
    let at = |j: int|
        choose|i: int| 0 <= i < order.len() && #[trigger] order[i] == count_on_page(blocks, page, j);
    assert forall|j: int| 0 <= j < blocks.len() && blocks[j].page_number == page implies 0
        <= #[trigger] at(j) < own.len() && own[at(j)] == blocks[j] && order[at(j)] == count_on_page(
        blocks,
        page,
        j,
    ) by {
        let x = count_on_page(blocks, page, j);
        assert(list[x] == blocks[j]);
        let i = law_sorted_order_leaves_none_out(keys, x);
        assert(order[i] == x);
        assert(order[at(j)] == x);
    }
    assert forall|m: int| 0 <= m < own.len() implies (#[trigger] own[m]).page_number == page
        && blocks.contains(own[m]) by {
        assert(0 <= order[m] < list.len());
        assert(taken_over(blocks, page, order[m], list[order[m]]));
        let j = choose|j: int|
            0 <= j < blocks.len() && (#[trigger] blocks[j]).page_number == page && count_on_page(
                blocks,
                page,
                j,
            ) == order[m] && list[order[m]] == blocks[j];
        assert(own[m] == blocks[j]);
    }
    assert forall|i: int, j: int|
        0 <= i < blocks.len() && 0 <= j < blocks.len() && blocks[i].page_number == page
            && blocks[j].page_number == page && (blocks[i].block_index < blocks[j].block_index
            || blocks[i].block_index == blocks[j].block_index && i < j) implies #[trigger] at(i)
        < #[trigger] at(j) by {
        let x = count_on_page(blocks, page, i);
        let y = count_on_page(blocks, page, j);
        assert(own[at(i)] == blocks[i] && own[at(j)] == blocks[j]);
        assert(order[at(i)] == x && order[at(j)] == y);
        assert(list[x] == blocks[i] && list[y] == blocks[j]);
        assert(keys[x].first == blocks[i].block_index);
        assert(keys[y].first == blocks[j].block_index);
        if blocks[i].block_index == blocks[j].block_index {
            lemma_count_ascends(blocks, page, i, j);
        }
        if at(j) < at(i) {
            let a = order[at(j)];
            let b = order[at(i)];
            assert(precedes(keys[a], keys[b]) || (!precedes(keys[b], keys[a]) && a < b));
        }
    }
    at
}

/// The texts of blocks that have one.
pub open spec fn block_texts(blocks: Seq<GeneralDocumentBlockView>) -> Seq<Seq<char>>
    decreases blocks.len(),
{
    if blocks.len() == 0 {
        Seq::empty()
    } else {
        let before = block_texts(blocks.drop_last());
        match blocks.last().text {
            Some(s) => before.push(s),
            None => before,
        }
    }
}

/// The text that the blocks of a page make, if it is not empty: their texts in
/// the order of their numbers, with blank lines between them.
pub open spec fn text_of_blocks(blocks: Seq<GeneralDocumentBlockView>) -> Option<Seq<char>> {
    let text = joined(nonblank(block_texts(by_index(blocks))), "\n\n"@);
    if blocks.len() == 0 || text.len() == 0 {
        None
    } else {
        Some(text)
    }
}

/// The text that the blocks of a page make.
pub fn page_text_from_blocks(blocks: &Vec<GeneralDocumentBlock>) -> (r: Option<String>)
    ensures
        opt_text(r) == text_of_blocks(meanings(blocks@)),
{
    if blocks.len() == 0 {
        return None;
    }
    let sorted = sort_blocks(blocks);
    let ghost all = meanings(sorted@);
    let mut list: Vec<String> = Vec::new();
    assert(texts(list@) =~= block_texts(all.take(0)));
    let mut i: usize = 0;
    while i < sorted.len()
        invariant
            i <= sorted@.len(),
            all == meanings(sorted@),
            texts(list@) == block_texts(all.take(i as int)),
        decreases sorted@.len() - i,
    {
        proof {
            assert(all.take(i as int + 1).drop_last() =~= all.take(i as int));
            assert(all.take(i as int + 1).last() == sorted@[i as int].meaning());
        }
        match &sorted[i].text {
            Some(s) => {
                push_text(&mut list, s.clone());
            },
            None => {},
        }
        i += 1;
    }
    assert(all.take(all.len() as int) =~= all);
    let text = join(&keep_nonblank(&list), "\n\n");
    if text.as_str().is_empty() {
        None
    } else {
        Some(text)
    }
}

/// The text of a page: as edited, else as read, else a remark that there is
/// none.
pub open spec fn text_of_page(page: GeneralDocumentPageView) -> Seq<char> {
    match page.edited_text {
        Some(s) => s,
        None => match page.ocr_text {
            Some(s) => s,
            None => "[หน้า "@ + decimal(page.page_number as int) + " ยังไม่มีข้อความ OCR]"@,
        },
    }
}

/// The text of a page.
pub fn page_text(page: &GeneralDocumentPage) -> (r: String)
    ensures
        r@ == text_of_page(page.meaning()),
{
    match &page.edited_text {
        Some(s) => s.clone(),
        None => match &page.ocr_text {
            Some(s) => s.clone(),
            None => cat3("[หน้า ", show_i64(page.page_number).as_str(), " ยังไม่มีข้อความ OCR]"),
        },
    }
}

// ---------------------------------------------------------------------------
// Laws of what is shown
// ---------------------------------------------------------------------------

/// There is at most one line for each hit, and no more than there may be.
proof fn lemma_few_lines(hits: Seq<HitView>, page: i64, limit: nat)
    ensures
        hit_lines(hits, page, limit).len() <= hits.len(),
        hit_lines(hits, page, limit).len() <= limit,
    decreases hits.len(),
{
    if hits.len() > 0 {
        lemma_few_lines(hits.drop_last(), page, limit);
    }
}

/// A hit on the page that comes early enough has its line.
proof fn lemma_hit_has_line(hits: Seq<HitView>, page: i64, limit: nat, i: int) -> (k: int)
    requires
        0 <= i < hits.len(),
        i < limit,
        hits[i].block.page_number == page,
    ensures
        0 <= k < hit_lines(hits, page, limit).len(),
        hit_lines(hits, page, limit)[k] == hit_line(hits[i]),
    decreases hits.len(),
{
    let before = hits.drop_last();
    if i == hits.len() - 1 {
        lemma_few_lines(before, page, limit);
        hit_lines(before, page, limit).len() as int
    } else {
        let k = lemma_hit_has_line(before, page, limit, i);
        assert(before[i] == hits[i]);
        k
    }
}

/// The context of a page shows each of the first eight hits that is on the page:
/// where it is, what it is, how well it matches, its place on the page, and its
/// text, which is cut where it is very long.
pub proof fn law_context_shows_the_hits(hits: Seq<HitView>, page: i64, i: int, text: Seq<char>)
    requires
        0 <= i < hits.len(),
        i < 8,
        hits[i].block.page_number == page,
        hits[i].block.text == Some(text),
    ensures
        ({
            let context = page_context(hits, page);
            &&& has_text(
                context,
                "page="@ + decimal(page as int) + " block="@ + decimal(
                    hits[i].block.block_index as int,
                ) + " type="@ + hits[i].block.block_type,
            )
            &&& has_text(context, " score="@ + hits[i].label + " bbox="@)
            &&& hits[i].block.bbox_json matches Some(place) ==> has_text(
                context,
                " bbox="@ + place + " text="@,
            )
            &&& text.len() <= 500 ==> has_text(context, " text="@ + text)
            &&& text.len() > 500 ==> has_text(context, " text="@ + text.take(500))
        }),
{
    let limit = CONTEXT_HITS as nat;
    let list = hit_lines(hits, page, limit);
    let k = lemma_hit_has_line(hits, page, limit, i);
    let hit = hits[i];
    let line = hit_line(hit);
    lemma_joined_holds(list, "\n"@, k);
    lemma_line_shows(hit);
    let context = page_context(hits, page);
    let place = block_place(hit.block);
    let shown = first_chars(text, CONTEXT_CHARS as nat);
    lemma_holds_deeper(context, line, place);
    lemma_holds_deeper(context, line, " score="@ + hit.label + " bbox="@);
    lemma_holds_deeper(
        context,
        line,
        " bbox="@ + text_or(hit.block.bbox_json, "-"@) + " text="@,
    );
    lemma_holds_deeper(context, line, " text="@ + shown);
}

/// What the line of a hit shows.
proof fn lemma_line_shows(hit: HitView)
    ensures
        has_text(hit_line(hit), block_place(hit.block)),
        has_text(hit_line(hit), " score="@ + hit.label + " bbox="@),
        has_text(hit_line(hit), " bbox="@ + text_or(hit.block.bbox_json, "-"@) + " text="@),
        has_text(
            hit_line(hit),
            " text="@ + first_chars(text_or(hit.block.text, ""@), CONTEXT_CHARS as nat),
        ),
{
    let a = block_place(hit.block);
    let s = " score="@;
    let l = hit.label;
    let b = " bbox="@;
    let x = text_or(hit.block.bbox_json, "-"@);
    let t = " text="@;
    let e = first_chars(text_or(hit.block.text, ""@), CONTEXT_CHARS as nat);
    let none = Seq::<char>::empty();
    lemma_end_stands(none, a);
    assert(none + a =~= a);
    lemma_front_holds(a, s, a);
    lemma_front_holds(a + s, l, a);
    lemma_front_holds(a + s + l, b, a);
    lemma_front_holds(a + s + l + b, x, a);
    lemma_front_holds(a + s + l + b + x, t, a);
    lemma_front_holds(a + s + l + b + x + t, e, a);
    let p = s + l + b;
    lemma_assoc(a, s, l);
    lemma_assoc(a, s + l, b);
    lemma_end_stands(a, p);
    lemma_front_holds(a + s + l + b, x, p);
    lemma_front_holds(a + s + l + b + x, t, p);
    lemma_front_holds(a + s + l + b + x + t, e, p);
    let q = b + x + t;
    lemma_assoc(a + s + l, b, x);
    lemma_assoc(a + s + l, b + x, t);
    lemma_end_stands(a + s + l, q);
    lemma_front_holds(a + s + l + b + x + t, e, q);
    lemma_assoc(a + s + l + b + x, t, e);
    lemma_end_stands(a + s + l + b + x, t + e);
}

/// A hit on another page leaves the lines alone.
proof fn lemma_lines_without(hits: Seq<HitView>, page: i64, limit: nat, k: int)
    requires
        0 <= k < hits.len(),
        hits[k].block.page_number != page,
    ensures
        hit_lines(hits.remove(k), page, limit) == hit_lines(hits, page, limit),
    decreases hits.len(),
{
    let less = hits.remove(k);
    if k == hits.len() - 1 {
        assert(less =~= hits.drop_last());
    } else {
        assert(less.drop_last() =~= hits.drop_last().remove(k));
        assert(less.last() == hits.last());
        assert(hits.drop_last()[k] == hits[k]);
        lemma_lines_without(hits.drop_last(), page, limit, k);
    }
}

/// The context of a page does not depend on the hits on other pages.
pub proof fn law_context_is_of_the_page(hits: Seq<HitView>, page: i64, k: int)
    requires
        0 <= k < hits.len(),
        hits[k].block.page_number != page,
    ensures
        page_context(hits.remove(k), page) == page_context(hits, page),
{
    lemma_lines_without(hits, page, CONTEXT_HITS as nat, k);
}

/// Where the text of a block stands among those of all blocks.
proof fn lemma_block_text_at(blocks: Seq<GeneralDocumentBlockView>, k: int)
    requires
        0 <= k < blocks.len(),
        blocks[k].text is Some,
    ensures
        block_texts(blocks.take(k)).len() < block_texts(blocks).len(),
        Some(block_texts(blocks)[block_texts(blocks.take(k)).len() as int]) == blocks[k].text,
    decreases blocks.len(),
{
    if k == blocks.len() - 1 {
        assert(blocks.take(k) =~= blocks.drop_last());
    } else {
        lemma_block_text_at(blocks.drop_last(), k);
        assert(blocks.drop_last().take(k) =~= blocks.take(k));
    }
}

/// The texts of two blocks keep their order.
proof fn lemma_block_texts_ascend(blocks: Seq<GeneralDocumentBlockView>, i: int, j: int)
    requires
        0 <= i < j < blocks.len(),
        blocks[i].text is Some,
    ensures
        block_texts(blocks.take(i)).len() < block_texts(blocks.take(j)).len(),
{
    lemma_block_text_at(blocks.take(j), i);
    assert(blocks.take(j).take(i) =~= blocks.take(i));
}

/// Where a block comes when the blocks are put in order.
proof fn lemma_block_in_order(blocks: Seq<GeneralDocumentBlockView>, i: int) -> (p: int)
    requires
        0 <= i < blocks.len(),
    ensures
        0 <= p < by_index(blocks).len(),
        by_index(blocks)[p] == blocks[i],
        sorted_order(index_keys(blocks))[p] == i,
{
    let keys = index_keys(blocks);
    law_sorted_order_leaves_none_out(keys, i)
}

/// The text that blocks make holds the text of each of them that is not blank.
pub proof fn law_page_text_holds_every_block(
    blocks: Seq<GeneralDocumentBlockView>,
    i: int,
    text: Seq<char>,
)
    requires
        0 <= i < blocks.len(),
        blocks[i].text == Some(text),
        trimmed(text).len() > 0,
    ensures
        text_of_blocks(blocks) matches Some(whole) && has_text(whole, trimmed(text)),
{
    let own = by_index(blocks);
    let p = lemma_block_in_order(blocks, i);
    let list = block_texts(own);
    lemma_block_text_at(own, p);
    let k = block_texts(own.take(p)).len() as int;
    lemma_nonblank_at(list, k);
    let parts = nonblank(list);
    let m = nonblank(list.take(k)).len() as int;
    lemma_joined_holds(parts, "\n\n"@, m);
}

/// The text that blocks make has the texts of the blocks in the order of their
/// numbers, and in the order of the blocks where the numbers are the same.
pub proof fn law_page_text_keeps_the_order(
    blocks: Seq<GeneralDocumentBlockView>,
    i: int,
    j: int,
    first: Seq<char>,
    second: Seq<char>,
)
    requires
        0 <= i < blocks.len(),
        0 <= j < blocks.len(),
        blocks[i].text == Some(first),
        blocks[j].text == Some(second),
        trimmed(first).len() > 0,
        trimmed(second).len() > 0,
        blocks[i].block_index < blocks[j].block_index || (blocks[i].block_index
            == blocks[j].block_index && i < j),
    ensures
        text_of_blocks(blocks) matches Some(whole) && shows_in_order(
            whole,
            trimmed(first),
            trimmed(second),
        ),
{
    let own = by_index(blocks);
    let keys = index_keys(blocks);
    let order = sorted_order(keys);
    let p = lemma_block_in_order(blocks, i);
    let q = lemma_block_in_order(blocks, j);
    law_sorted_order(keys);
    assert(p < q) by {
        assert(keys[i].first == blocks[i].block_index);
        assert(keys[j].first == blocks[j].block_index);
        if q < p {
            let a = order[q];
            let b = order[p];
            assert(precedes(keys[a], keys[b]) || (!precedes(keys[b], keys[a]) && a < b));
        }
    }
    let list = block_texts(own);
    lemma_block_text_at(own, p);
    lemma_block_text_at(own, q);
    lemma_block_texts_ascend(own, p, q);
    let k = block_texts(own.take(p)).len() as int;
    let l = block_texts(own.take(q)).len() as int;
    lemma_nonblank_at(list, k);
    lemma_nonblank_at(list, l);
    lemma_nonblank_ascends(list, k, l);
    let parts = nonblank(list);
    let m = nonblank(list.take(k)).len() as int;
    let n = nonblank(list.take(l)).len() as int;
    lemma_joined_holds(parts, "\n\n"@, m);
    lemma_joined_in_order(parts, "\n\n"@, m, n);
}

/// A block of the page is among the blocks of the page.
pub proof fn lemma_on_page_has(blocks: Seq<GeneralDocumentBlockView>, page: i64, i: int) -> (k: int)
    requires
        0 <= i < blocks.len(),
        blocks[i].page_number == page,
    ensures
        0 <= k < on_page(blocks, page).len(),
        on_page(blocks, page)[k] == blocks[i],
    decreases blocks.len(),
{
    let before = blocks.drop_last();
    if i == blocks.len() - 1 {
        on_page(before, page).len() as int
    } else {
        let k = lemma_on_page_has(before, page, i);
        assert(before[i] == blocks[i]);
        k
    }
}

/// A block on another page leaves the blocks of a page alone.
pub proof fn lemma_on_page_without(blocks: Seq<GeneralDocumentBlockView>, page: i64, k: int)
    requires
        0 <= k < blocks.len(),
        blocks[k].page_number != page,
    ensures
        on_page(blocks.remove(k), page) == on_page(blocks, page),
    decreases blocks.len(),
{
    let less = blocks.remove(k);
    if k == blocks.len() - 1 {
        assert(less =~= blocks.drop_last());
    } else {
        assert(less.drop_last() =~= blocks.drop_last().remove(k));
        assert(less.last() == blocks.last());
        assert(blocks.drop_last()[k] == blocks[k]);
        lemma_on_page_without(blocks.drop_last(), page, k);
    }
}

/// The text of a page is the one that was edited last, whatever was read; a page
/// that was not edited has the text that was read.
pub proof fn law_edited_text_is_shown(page: GeneralDocumentPageView, text: Seq<char>)
    ensures
        page.edited_text == Some(text) ==> text_of_page(page) == text,
        page.edited_text is None && page.ocr_text == Some(text) ==> text_of_page(page) == text,
        page.edited_text is None && page.ocr_text is None ==> has_text(
            text_of_page(page),
            decimal(page.page_number as int),
        ),
{
    let number = decimal(page.page_number as int);
    lemma_stands_between("[หน้า "@, number, " ยังไม่มีข้อความ OCR]"@);
}

/// How well a block matches does not depend on the case of the question, nor on
/// anything of the block but its text; a block without text does not match at all.
pub proof fn law_blocks_match_by_their_text(
    query: Seq<char>,
    other: Seq<char>,
    block: GeneralDocumentBlockView,
    text: Seq<char>,
)
    requires
        lowercase(query) == lowercase(other),
    ensures
        block_share(query, block) == block_share(other, block),
        block.text is None ==> block_share(query, block).0 == 0,
        block.text == Some(text) && has_text(lowercase(text), lowercase(query)) ==> block_share(
            query,
            block,
        ) == (1nat, 1nat),
        block.text == Some(text) && !has_text(lowercase(text), lowercase(query)) ==> block_share(
            query,
            block,
        ).1 == words_of(lowercase(query)).len(),
{
}

} // verus!
