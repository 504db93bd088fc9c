//! The blocks of a page: what the reader of a scan says about its layout, or
//! else the paragraphs of its text.
use vstd::prelude::*;

use crate::database::text_arg;
use crate::database::ArgView;
use crate::general_store::block_args;
use crate::general_store::blocks_args;
use crate::general_store::NewGeneralDocumentBlock;
use crate::json::empty_object;
use crate::json::entries_view;
use crate::json::find_entry;
use crate::json::items_view;
use crate::json::json_text;
use crate::json::Json;
use crate::json::JsonView;
use crate::text::begins_with;
use crate::text::borrow;
use crate::text::byte_count;
use crate::text::byte_len;
use crate::text::contains;
use crate::text::either;
use crate::text::first_text;
use crate::text::has_text;
use crate::text::joined;
use crate::text::lacks;
use crate::text::lemma_joined_without_gaps;
use crate::text::lemma_lacks;
use crate::text::lemma_lines_joined;
use crate::text::lemma_nonblank_plain;
use crate::text::lemma_one_piece;
use crate::text::lemma_pieces_joined;
use crate::text::lemma_single_line;
use crate::text::lemma_trimmed_plain;
use crate::text::lines_of;
use crate::text::matches_at;
use crate::text::nonblank;
use crate::text::nonblank_lines;
use crate::text::one_line;
use crate::text::opt_str;
use crate::text::opt_text;
use crate::text::pieces;
use crate::text::plain;
use crate::text::push_text;
use crate::text::split;
use crate::text::starts_with;
use crate::text::text_or;
use crate::text::texts;
use crate::text::trim;
use crate::text::trimmed;

verus! {

/// A block before it is kept.
#[derive(Debug)]
pub struct DraftGeneralBlock {
    pub document_id: i64,
    pub page_number: i64,
    pub block_index: i64,
    pub block_type: String,
    pub text: Option<String>,
    pub bbox_json: Option<String>,
    pub style_json: Option<String>,
    pub image_path: Option<String>,
    /// The vector by which the block is found, as a JSON array.
    pub embedding: Option<String>,
}

/// What a block before it is kept is.
pub struct DraftView {
    pub document_id: i64,
    pub page_number: i64,
    pub block_index: i64,
    pub block_type: Seq<char>,
    pub text: Option<Seq<char>>,
    pub bbox_json: Option<Seq<char>>,
    pub style_json: Option<Seq<char>>,
    pub image_path: Option<Seq<char>>,
    pub embedding: Option<Seq<char>>,
}

impl DraftGeneralBlock {
    pub open spec fn view(&self) -> DraftView {
        DraftView {
            document_id: self.document_id,
            page_number: self.page_number,
            block_index: self.block_index,
            block_type: self.block_type@,
            text: opt_text(self.text),
            bbox_json: opt_text(self.bbox_json),
            style_json: opt_text(self.style_json),
            image_path: opt_text(self.image_path),
            embedding: opt_text(self.embedding),
        }
    }
}

/// The blocks of a list.
pub open spec fn drafts(list: Seq<DraftGeneralBlock>) -> Seq<DraftView> {
    Seq::new(list.len(), |i: int| list[i]@)
}

/// Appends a block to a list.
fn push_draft(list: &mut Vec<DraftGeneralBlock>, block: DraftGeneralBlock)
    ensures
        drafts(final(list)@) == drafts(old(list)@).push(block@),
{
    list.push(block);
    assert(drafts(list@) =~= drafts(old(list)@).push(block@));
}

// ---------------------------------------------------------------------------
// Blocks from a layout
// ---------------------------------------------------------------------------

/// The text under a key, without the white space around it, if any is left.
pub open spec fn string_at(value: JsonView, key: Seq<char>) -> Option<Seq<char>> {
    match value.member(key) {
        Some(JsonView::Text(s)) => if trimmed(s).len() == 0 {
            None
        } else {
            Some(trimmed(s))
        },
        _ => None,
    }
}

/// The JSON text of what stands under one of two keys.
pub open spec fn json_at(value: JsonView, key: Seq<char>, other: Seq<char>) -> Option<Seq<char>> {
    match value.member(key) {
        Some(v) => Some(json_text(v)),
        None => match value.member(other) {
            Some(v) => Some(json_text(v)),
            None => None,
        },
    }
}

/// The text of a block in a layout.
pub open spec fn layout_text(value: JsonView) -> Option<Seq<char>> {
    either(
        string_at(value, "text"@),
        either(
            string_at(value, "natural_text"@),
            either(
                string_at(value, "content"@),
                either(string_at(value, "markdown"@), string_at(value, "caption"@)),
            ),
        ),
    )
}

/// The image of a block in a layout, unless it stands there as data.
pub open spec fn layout_image(value: JsonView) -> Option<Seq<char>> {
    match either(string_at(value, "image_path"@), string_at(value, "image"@)) {
        Some(s) => if begins_with(s, "data:"@) {
            None
        } else {
            Some(s)
        },
        None => None,
    }
}

/// The type that a layout gives a block.
pub open spec fn layout_type(value: JsonView) -> Option<Seq<char>> {
    either(
        string_at(value, "block_type"@),
        either(string_at(value, "type"@), string_at(value, "kind"@)),
    )
}

/// The block that a value in a layout stands for. It has a text or an image.
pub open spec fn layout_block(value: JsonView) -> Option<DraftView> {
    let text = layout_text(value);
    let image = layout_image(value);
    if text is None && image is None {
        None
    } else {
        Some(
            DraftView {
                document_id: 0,
                page_number: 0,
                block_index: 0,
                block_type: text_or(
                    layout_type(value),
                    if image is Some {
                        "image"@
                    } else {
                        "paragraph"@
                    },
                ),
                text,
                bbox_json: json_at(value, "bbox"@, "bounding_box"@),
                style_json: json_at(value, "style"@, "styles"@),
                image_path: image,
                embedding: None,
            },
        )
    }
}

/// Whether a value looks like a block of a layout.
pub open spec fn looks_like_block(value: JsonView) -> bool {
    ||| value.member("bbox"@) is Some
    ||| value.member("bounding_box"@) is Some
    ||| value.member("block_type"@) is Some
    ||| value.member("type"@) is Some
}

/// Whether the items of an array are the blocks of a layout.
pub open spec fn looks_like_blocks(items: Seq<JsonView>) -> bool {
    exists|i: int| 0 <= i < items.len() && looks_like_block(#[trigger] items[i])
}

/// The blocks that the items of an array stand for.
pub open spec fn blocks_in(items: Seq<JsonView>) -> Seq<DraftView>
    decreases items.len(),
{
    if items.len() == 0 {
        Seq::empty()
    } else {
        let before = blocks_in(items.drop_last());
        match layout_block(items.last()) {
            Some(block) => before.push(block),
            None => before,
        }
    }
}

/// The blocks of a layout: those of an array that looks like one of blocks,
/// else those inside, where an object has its blocks under certain keys.
pub open spec fn layout_blocks(value: JsonView) -> Seq<DraftView>
    decreases value,
{
    match value {
        JsonView::Array(items) => if looks_like_blocks(items) {
            blocks_in(items)
        } else {
            blocks_within(items)
        },
        JsonView::Object(m) => {
            let blocks = if m.dom().contains("blocks"@) {
                layout_blocks(m["blocks"@])
            } else {
                Seq::empty()
            };
            let layout = if m.dom().contains("layout"@) {
                layout_blocks(m["layout"@])
            } else {
                Seq::empty()
            };
            let elements = if m.dom().contains("elements"@) {
                layout_blocks(m["elements"@])
            } else {
                Seq::empty()
            };
            let cells = if m.dom().contains("cells"@) {
                layout_blocks(m["cells"@])
            } else {
                Seq::empty()
            };
            let lines = if m.dom().contains("lines"@) {
                layout_blocks(m["lines"@])
            } else {
                Seq::empty()
            };
            blocks + layout + elements + cells + lines
        },
        _ => Seq::empty(),
    }
}

/// The blocks inside the items of an array, one item after the other.
pub open spec fn blocks_within(items: Seq<JsonView>) -> Seq<DraftView>
    decreases items,
{
    if items.len() == 0 {
        Seq::empty()
    } else {
        blocks_within(items.drop_last()) + layout_blocks(items.last())
    }
}

/// The blocks of what stands under a key of an object.
pub open spec fn under(m: Map<Seq<char>, JsonView>, key: Seq<char>) -> Seq<DraftView> {
    if m.dom().contains(key) {
        layout_blocks(m[key])
    } else {
        Seq::empty()
    }
}

proof fn lemma_append_five(
    s: Seq<DraftView>,
    a: Seq<DraftView>,
    b: Seq<DraftView>,
    c: Seq<DraftView>,
    d: Seq<DraftView>,
    e: Seq<DraftView>,
)
    ensures
        s + a + b + c + d + e == s + (a + b + c + d + e),
{
    assert(s + a + b + c + d + e =~= s + (a + b + c + d + e));
}

/// The text under a key, trimmed.
fn text_at(value: &Json, key: &str) -> (r: Option<String>)
    ensures
        opt_text(r) == string_at(value@, key@),
{
    match value.get(key) {
        Some(Json::Text(s)) => {
            let t = trim(s.as_str());
            if t.as_str().is_empty() {
                None
            } else {
                Some(t)
            }
        },
        _ => None,
    }
}

/// The JSON text of what stands under one of two keys.
fn json_text_at(value: &Json, key: &str, other: &str) -> (r: Option<String>)
    ensures
        opt_text(r) == json_at(value@, key@, other@),
{
    match value.get(key) {
        Some(v) => Some(v.to_text()),
        None => match value.get(other) {
            Some(v) => Some(v.to_text()),
            None => None,
        },
    }
}

/// The block that a value in a layout stands for.
pub fn block_from_json(value: &Json) -> (r: Option<DraftGeneralBlock>)
    ensures
        match r {
            Some(block) => layout_block(value@) == Some(block@),
            None => layout_block(value@) is None,
        },
{
    let text = first_text(
        text_at(value, "text"),
        first_text(
            text_at(value, "natural_text"),
            first_text(
                text_at(value, "content"),
                first_text(text_at(value, "markdown"), text_at(value, "caption")),
            ),
        ),
    );
    let image_path = match first_text(text_at(value, "image_path"), text_at(value, "image")) {
        Some(s) => if starts_with(s.as_str(), "data:") {
            None
        } else {
            Some(s)
        },
        None => None,
    };
    if text.is_none() && image_path.is_none() {
        return None;
    }
    let block_type = match first_text(
        text_at(value, "block_type"),
        first_text(text_at(value, "type"), text_at(value, "kind")),
    ) {
        Some(kind) => kind,
        None => if image_path.is_some() {
            "image".to_owned()
        } else {
            "paragraph".to_owned()
        },
    };
    Some(
        DraftGeneralBlock {
            document_id: 0,
            page_number: 0,
            block_index: 0,
            block_type,
            text,
            bbox_json: json_text_at(value, "bbox", "bounding_box"),
            style_json: json_text_at(value, "style", "styles"),
            image_path,
            embedding: None,
        },
    )
}

/// Whether the items of an array are the blocks of a layout.
pub fn looks_like_block_array(items: &Vec<Json>) -> (r: bool)
    ensures
        r == looks_like_blocks(items_view(items@)),
{
    let ghost views = items_view(items@);
    let mut i: usize = 0;
    while i < items.len()
        invariant
            i <= items@.len(),
            views == items_view(items@),
            forall|k: int| 0 <= k < i ==> !looks_like_block(#[trigger] views[k]),
        decreases items@.len() - i,
    {
        let item = &items[i];
        assert(views[i as int] == item@);
        if item.get("bbox").is_some() || item.get("bounding_box").is_some() || item.get(
            "block_type",
        ).is_some() || item.get("type").is_some() {
            assert(looks_like_block(views[i as int]));
            return true;
        }
        i += 1;
    }
    false
}

/// Appends the blocks that the items of an array stand for.
fn collect_blocks(items: &Vec<Json>, out: &mut Vec<DraftGeneralBlock>)
    ensures
        drafts(final(out)@) == drafts(old(out)@) + blocks_in(items_view(items@)),
{
    let ghost views = items_view(items@);
    let ghost start = drafts(out@);
    assert(views.take(0) =~= Seq::empty());
    assert(start + blocks_in(views.take(0)) =~= start);
    let mut i: usize = 0;
    while i < items.len()
        invariant
            i <= items@.len(),
            views == items_view(items@),
            drafts(out@) == start + blocks_in(views.take(i as int)),
        decreases items@.len() - i,
    {
        let ghost before = drafts(out@);
        proof {
            assert(views.take(i as int + 1).drop_last() =~= views.take(i as int));
            assert(views.take(i as int + 1).last() == items@[i as int].view());
        }
        match block_from_json(&items[i]) {
            Some(block) => {
                push_draft(out, block);
            },
            None => {},
        }
        assert(drafts(out@) =~= start + blocks_in(views.take(i as int + 1)));
        i += 1;
    }
    assert(views.take(views.len() as int) =~= views);
}

/// Appends the blocks of a layout.
#[verifier::spinoff_prover]
pub fn collect_layout_blocks(value: &Json, out: &mut Vec<DraftGeneralBlock>)
    ensures
        drafts(final(out)@) == drafts(old(out)@) + layout_blocks(value@),
    decreases value,
{
    let ghost start = drafts(out@);
    match value {
        Json::Array(items) => {
            if looks_like_block_array(items) {
                collect_blocks(items, out);
            } else {
                collect_within(items, out);
            }
        },
        Json::Object(entries) => {
            collect_under(entries, "blocks", out);
            collect_under(entries, "layout", out);
            collect_under(entries, "elements", out);
            collect_under(entries, "cells", out);
            collect_under(entries, "lines", out);
            proof {
                let m = entries_view(entries@);
                lemma_append_five(
                    start,
                    under(m, "blocks"@),
                    under(m, "layout"@),
                    under(m, "elements"@),
                    under(m, "cells"@),
                    under(m, "lines"@),
                );
            }
        },
        _ => {
            assert(drafts(out@) =~= start + layout_blocks(value@));
        },
    }
}

/// Appends the blocks of what stands under a key of an object.
fn collect_under(entries: &Vec<(String, Json)>, key: &str, out: &mut Vec<DraftGeneralBlock>)
    ensures
        drafts(final(out)@) == drafts(old(out)@) + under(entries_view(entries@), key@),
    decreases entries,
{
    match find_entry(entries, key) {
        Some(i) => {
            collect_layout_blocks(&entries[i].1, out);
        },
        None => {
            assert(drafts(out@) =~= drafts(old(out)@) + Seq::empty());
        },
    }
}

/// Appends the blocks inside the items of an array.
fn collect_within(items: &Vec<Json>, out: &mut Vec<DraftGeneralBlock>)
    ensures
        drafts(final(out)@) == drafts(old(out)@) + blocks_within(items_view(items@)),
    decreases items,
{
    let ghost views = items_view(items@);
    let ghost start = drafts(out@);
    assert(views.take(0) =~= Seq::empty());
    assert(start + blocks_within(views.take(0)) =~= start);
    let mut i: usize = 0;
    while i < items.len()
        invariant
            i <= items@.len(),
            views == items_view(items@),
            drafts(out@) == start + blocks_within(views.take(i as int)),
        decreases items@.len() - i,
    {
        let ghost before = drafts(out@);
        proof {
            assert(views.take(i as int + 1).drop_last() =~= views.take(i as int));
            assert(views.take(i as int + 1).last() == items@[i as int].view());
        }
        collect_layout_blocks(&items[i], out);
        assert(drafts(out@) =~= start + blocks_within(views.take(i as int + 1)));
        i += 1;
    }
    assert(views.take(views.len() as int) =~= views);
}

// ---------------------------------------------------------------------------
// Blocks from a text
// ---------------------------------------------------------------------------

/// The most bytes that a paragraph may have before it is split into lines.
pub const LONG_PARAGRAPH: usize = 1200;

/// The bytes from which on a line is no heading.
pub const LONG_HEADING: usize = 120;

/// The parts of a paragraph: itself, or its lines where it is long.
pub open spec fn paragraph_parts(chunk: Seq<char>) -> Seq<Seq<char>> {
    let t = trimmed(chunk);
    if t.len() == 0 {
        Seq::empty()
    } else if byte_count(t) > LONG_PARAGRAPH {
        nonblank(lines_of(t))
    } else {
        seq![t]
    }
}

/// The parts of all paragraphs.
pub open spec fn all_parts(chunks: Seq<Seq<char>>) -> Seq<Seq<char>>
    decreases chunks.len(),
{
    if chunks.len() == 0 {
        Seq::empty()
    } else {
        all_parts(chunks.drop_last()) + paragraph_parts(chunks.last())
    }
}

/// What a part of a text looks like.
pub open spec fn inferred_type(part: Seq<char>) -> Seq<char> {
    let t = trimmed(part);
    if begins_with(t, "|"@) {
        "table"@
    } else if byte_count(t) < LONG_HEADING && !has_text(t, "."@) && !has_text(t, "\n"@) {
        "heading"@
    } else {
        "paragraph"@
    }
}

/// The block that a part of a text is.
pub open spec fn text_block(part: Seq<char>) -> DraftView {
    DraftView {
        document_id: 0,
        page_number: 0,
        block_index: 0,
        block_type: inferred_type(part),
        text: Some(part),
        bbox_json: None,
        style_json: None,
        image_path: None,
        embedding: None,
    }
}

/// The blocks of a text: its paragraphs, which are parted by blank lines.
pub open spec fn text_blocks(text: Seq<char>) -> Seq<DraftView> {
    let parts = all_parts(pieces(text, "\n\n"@));
    Seq::new(parts.len(), |i: int| text_block(parts[i]))
}

/// What a part of a text looks like.
pub fn infer_block_type(text: &str) -> (r: String)
    ensures
        r@ == inferred_type(text@),
{
    let t = trim(text);
    if starts_with(t.as_str(), "|") {
        "table".to_owned()
    } else if byte_len(t.as_str()) < LONG_HEADING && !contains(t.as_str(), ".") && !contains(
        t.as_str(),
        "\n",
    ) {
        "heading".to_owned()
    } else {
        "paragraph".to_owned()
    }
}

/// The parts of a paragraph.
fn split_paragraph(chunk: &str) -> (r: Vec<String>)
    ensures
        texts(r@) == paragraph_parts(chunk@),
{
    let t = trim(chunk);
    let mut parts: Vec<String> = Vec::new();
    if t.as_str().is_empty() {
        assert(texts(parts@) =~= Seq::empty());
        return parts;
    }
    if byte_len(t.as_str()) > LONG_PARAGRAPH {
        return nonblank_lines(t.as_str());
    }
    push_text(&mut parts, t);
    assert(texts(parts@) =~= seq![trimmed(chunk@)]);
    parts
}

/// The blocks of a text.
pub fn fallback_text_blocks(text: &str) -> (r: Vec<DraftGeneralBlock>)
    ensures
        drafts(r@) == text_blocks(text@),
{
    proof {
        reveal_strlit("\n\n");
    }
    let chunks = split(text, "\n\n");
    let ghost all = texts(chunks@);
    let mut out: Vec<DraftGeneralBlock> = Vec::new();
    let ghost mut done: Seq<Seq<char>> = Seq::empty();
    assert(all.take(0) =~= Seq::empty());
    assert(drafts(out@) =~= Seq::new(done.len(), |i: int| text_block(done[i])));
    let mut i: usize = 0;
    while i < chunks.len()
        invariant
            i <= chunks@.len(),
            all == texts(chunks@),
            done == all_parts(all.take(i as int)),
            drafts(out@) == Seq::new(done.len(), |k: int| text_block(done[k])),
        decreases chunks@.len() - i,
    {
        let parts = split_paragraph(chunks[i].as_str());
        let ghost more = texts(parts@);
        let ghost start = done;
        proof {
            assert(all.take(i as int + 1).drop_last() =~= all.take(i as int));
            assert(all.take(i as int + 1).last() == chunks@[i as int]@);
            assert(start + more.take(0) =~= start);
        }
        let mut j: usize = 0;
        while j < parts.len()
            invariant
                j <= parts@.len(),
                more == texts(parts@),
                drafts(out@) == Seq::new(
                    (start + more.take(j as int)).len(),
                    |k: int| text_block((start + more.take(j as int))[k]),
                ),
            decreases parts@.len() - j,
        {
            let part = parts[j].clone();
            let block_type = infer_block_type(part.as_str());
            let ghost before = drafts(out@);
            push_draft(
                &mut out,
                DraftGeneralBlock {
                    document_id: 0,
                    page_number: 0,
                    block_index: 0,
                    block_type,
                    text: Some(part),
                    bbox_json: None,
                    style_json: None,
                    image_path: None,
                    embedding: None,
                },
            );
            proof {
                let next = start + more.take(j as int + 1);
                assert(next =~= (start + more.take(j as int)).push(more[j as int]));
                assert(drafts(out@) =~= Seq::new(next.len(), |k: int| text_block(next[k])));
            }
            j += 1;
        }
        proof {
            done = start + more;
            assert(more.take(more.len() as int) =~= more);
        }
        i += 1;
    }
    assert(all.take(all.len() as int) =~= all);
    out
}

// ---------------------------------------------------------------------------
// The blocks of a page
// ---------------------------------------------------------------------------

/// The blocks of a page: those of its layout, or those of its text where the
/// layout has none, numbered from zero.
pub open spec fn page_blocks(
    document_id: i64,
    page_number: i64,
    text: Seq<char>,
    layout: JsonView,
) -> Seq<DraftView> {
    let found = layout_blocks(layout);
    let blocks = if found.len() == 0 {
        text_blocks(text)
    } else {
        found
    };
    Seq::new(
        blocks.len(),
        |i: int| DraftView { document_id, page_number, block_index: i as i64, ..blocks[i] },
    )
}

/// The blocks of a page.
pub fn extract_general_blocks(
    document_id: i64,
    page_number: i64,
    text: &str,
    raw_json: &Json,
) -> (r: Vec<DraftGeneralBlock>)
    ensures
        drafts(r@) == page_blocks(document_id, page_number, text@, raw_json@),
{
    let mut blocks: Vec<DraftGeneralBlock> = Vec::new();
    collect_layout_blocks(raw_json, &mut blocks);
    assert(drafts(blocks@) =~= layout_blocks(raw_json@));
    if blocks.len() == 0 {
        blocks = fallback_text_blocks(text);
    }
    let ghost all = drafts(blocks@);
    let mut out: Vec<DraftGeneralBlock> = Vec::new();
    let mut i: usize = 0;
    let n: usize = blocks.len();
    assert(all.skip(0) =~= all);
    while i < n
        invariant
            i <= n,
            n == all.len(),
            blocks@.len() == n - i,
            drafts(blocks@) == all.skip(i as int),
            out@.len() == i,
            forall|k: int|
                0 <= k < i ==> (#[trigger] out@[k])@ == (DraftView {
                    document_id,
                    page_number,
                    block_index: k as i64,
                    ..all[k]
                }),
        decreases n - i,
    {
        let ghost left = blocks@;
        let mut block = blocks.remove(0);
        proof {
            assert(block@ == drafts(left)[0]);
            assert forall|k: int| 0 <= k < blocks@.len() implies #[trigger] drafts(blocks@)[k]
                == all.skip(i as int + 1)[k] by {
                assert(blocks@[k] == left[k + 1]);
                assert(drafts(left)[k + 1] == all.skip(i as int)[k + 1]);
            }
            assert(drafts(blocks@) =~= all.skip(i as int + 1));
        }
        block.document_id = document_id;
        block.page_number = page_number;
        block.block_index = i as i64;
        out.push(block);
        i += 1;
    }
    assert(drafts(out@) =~= page_blocks(document_id, page_number, text@, raw_json@));
    out
}

/// The blocks of a page are numbered from zero, one after the other, belong to
/// the page, and have a text or an image each.
pub proof fn law_blocks_are_numbered(
    document_id: i64,
    page_number: i64,
    text: Seq<char>,
    layout: JsonView,
    i: int,
)
    requires
        0 <= i < page_blocks(document_id, page_number, text, layout).len(),
    ensures
        ({
            let block = page_blocks(document_id, page_number, text, layout)[i];
            &&& block.block_index == i as i64
            &&& block.document_id == document_id
            &&& block.page_number == page_number
            &&& block.text is Some || block.image_path is Some
        }),
{
    let found = layout_blocks(layout);
    if found.len() > 0 {
        lemma_layout_blocks_have_content(layout);
    }
}

/// Whether a block has a text or an image.
spec fn has_content(block: DraftView) -> bool {
    block.text is Some || block.image_path is Some
}

proof fn lemma_blocks_in_have_content(items: Seq<JsonView>)
    ensures
        forall|i: int|
            0 <= i < blocks_in(items).len() ==> has_content(#[trigger] blocks_in(items)[i]),
    decreases items.len(),
{
    if items.len() > 0 {
        lemma_blocks_in_have_content(items.drop_last());
        let before = blocks_in(items.drop_last());
        let all = blocks_in(items);
        assert forall|i: int| 0 <= i < all.len() implies has_content(#[trigger] all[i]) by {
            if i < before.len() {
                assert(all[i] == before[i]);
            } else {
                assert(layout_block(items.last()) == Some(all[i]));
            }
        }
    }
}

#[verifier::spinoff_prover]
proof fn lemma_layout_blocks_have_content(value: JsonView)
    ensures
        forall|i: int|
            0 <= i < layout_blocks(value).len() ==> has_content(
                #[trigger] layout_blocks(value)[i],
            ),
    decreases value,
{
    match value {
        JsonView::Array(items) => {
            if looks_like_blocks(items) {
                lemma_blocks_in_have_content(items);
                assert(layout_blocks(value) == blocks_in(items));
            } else {
                lemma_blocks_within_have_content(items);
                assert(layout_blocks(value) == blocks_within(items));
            }
        },
        JsonView::Object(m) => {
            if m.dom().contains("blocks"@) {
                lemma_layout_blocks_have_content(m["blocks"@]);
            }
            if m.dom().contains("layout"@) {
                lemma_layout_blocks_have_content(m["layout"@]);
            }
            if m.dom().contains("elements"@) {
                lemma_layout_blocks_have_content(m["elements"@]);
            }
            if m.dom().contains("cells"@) {
                lemma_layout_blocks_have_content(m["cells"@]);
            }
            if m.dom().contains("lines"@) {
                lemma_layout_blocks_have_content(m["lines"@]);
            }
            let a = under(m, "blocks"@);
            let b = under(m, "layout"@);
            let c = under(m, "elements"@);
            let d = under(m, "cells"@);
            let e = under(m, "lines"@);
            lemma_content_of_both(a, b);
            lemma_content_of_both(a + b, c);
            lemma_content_of_both(a + b + c, d);
            lemma_content_of_both(a + b + c + d, e);
            assert(layout_blocks(value) == a + b + c + d + e);
        },
        _ => {},
    }
}

proof fn lemma_content_of_both(a: Seq<DraftView>, b: Seq<DraftView>)
    requires
        forall|i: int| 0 <= i < a.len() ==> has_content(#[trigger] a[i]),
        forall|i: int| 0 <= i < b.len() ==> has_content(#[trigger] b[i]),
    ensures
        forall|i: int| 0 <= i < (a + b).len() ==> has_content(#[trigger] (a + b)[i]),
{
}

proof fn lemma_blocks_within_have_content(items: Seq<JsonView>)
    ensures
        forall|i: int|
            0 <= i < blocks_within(items).len() ==> has_content(
                #[trigger] blocks_within(items)[i],
            ),
    decreases items,
{
    if items.len() > 0 {
        lemma_blocks_within_have_content(items.drop_last());
        lemma_layout_blocks_have_content(items.last());
        lemma_content_of_both(
            blocks_within(items.drop_last()),
            layout_blocks(items.last()),
        );
    }
}

/// The arguments of the statement that keeps a block.
pub open spec fn draft_args(block: DraftView) -> Seq<ArgView> {
    seq![
        ArgView::Integer(block.document_id),
        ArgView::Integer(block.page_number),
        ArgView::Integer(block.block_index),
        ArgView::Text(block.block_type),
        text_arg(block.text),
        text_arg(block.bbox_json),
        text_arg(block.style_json),
        text_arg(block.image_path),
        text_arg(block.embedding),
    ]
}

/// The arguments of the statements that keep blocks.
pub open spec fn drafts_args(list: Seq<DraftView>) -> Seq<Seq<ArgView>> {
    Seq::new(list.len(), |i: int| draft_args(list[i]))
}

/// Blocks as they are to be kept.
pub fn block_records(blocks: &Vec<DraftGeneralBlock>) -> (r: Vec<NewGeneralDocumentBlock<'_>>)
    ensures
        blocks_args(r@) == drafts_args(drafts(blocks@)),
{
    let mut records: Vec<NewGeneralDocumentBlock<'_>> = Vec::new();
    let mut i: usize = 0;
    while i < blocks.len()
        invariant
            i <= blocks@.len(),
            records@.len() == i,
            forall|k: int|
                0 <= k < i ==> block_args(#[trigger] records@[k]) == draft_args(blocks@[k]@),
        decreases blocks@.len() - i,
    {
        let record = new_general_block_record(&blocks[i]);
        assert(block_args(record) =~= draft_args(blocks@[i as int]@));
        records.push(record);
        i += 1;
    }
    assert(blocks_args(records@) =~= drafts_args(drafts(blocks@)));
    records
}

/// A block as it is to be kept.
pub fn new_general_block_record(block: &DraftGeneralBlock) -> (r: NewGeneralDocumentBlock<'_>)
    ensures
        r.document_id == block.document_id,
        r.page_number == block.page_number,
        r.block_index == block.block_index,
        r.block_type@ == block.block_type@,
        opt_str(r.text) == opt_text(block.text),
        opt_str(r.bbox_json) == opt_text(block.bbox_json),
        opt_str(r.style_json) == opt_text(block.style_json),
        opt_str(r.image_path) == opt_text(block.image_path),
        opt_str(r.embedding) == opt_text(block.embedding),
{
    NewGeneralDocumentBlock {
        document_id: block.document_id,
        page_number: block.page_number,
        block_index: block.block_index,
        block_type: block.block_type.as_str(),
        text: borrow(&block.text),
        bbox_json: borrow(&block.bbox_json),
        style_json: borrow(&block.style_json),
        image_path: borrow(&block.image_path),
        embedding: borrow(&block.embedding),
    }
}

/// The text by which a block is embedded, if it has one that is not blank.
pub fn embedding_text(block: &DraftGeneralBlock) -> (r: Option<String>)
    ensures
        opt_text(r) == (match opt_text(block.text) {
            Some(s) => if trimmed(s).len() == 0 {
                None
            } else {
                Some(trimmed(s))
            },
            None => None,
        }),
{
    match &block.text {
        Some(s) => {
            let t = trim(s.as_str());
            if t.as_str().is_empty() {
                None
            } else {
                Some(t)
            }
        },
        None => None,
    }
}

// ---------------------------------------------------------------------------
// Laws
// ---------------------------------------------------------------------------

/// A paragraph that is one line is its own part, however long it is.
proof fn lemma_plain_part(chunk: Seq<char>)
    requires
        plain(chunk),
    ensures
        paragraph_parts(chunk) == seq![chunk],
{
    lemma_trimmed_plain(chunk);
    lemma_single_line(chunk);
    let list = seq![chunk];
    assert forall|i: int| 0 <= i < list.len() implies plain(#[trigger] list[i]) by {}
    lemma_nonblank_plain(list);
}

proof fn lemma_plain_parts(chunks: Seq<Seq<char>>)
    requires
        forall|i: int| 0 <= i < chunks.len() ==> plain(#[trigger] chunks[i]),
    ensures
        all_parts(chunks) == chunks,
    decreases chunks.len(),
{
    if chunks.len() == 0 {
        assert(all_parts(chunks) =~= chunks);
    } else {
        let before = chunks.drop_last();
        assert forall|i: int| 0 <= i < before.len() implies plain(#[trigger] before[i]) by {
            assert(before[i] == chunks[i]);
        }
        lemma_plain_parts(before);
        assert(plain(chunks[chunks.len() - 1]));
        lemma_plain_part(chunks.last());
        assert(before + seq![chunks.last()] =~= chunks);
    }
}

/// The blocks of a text are its paragraphs: each of them is one block, with its
/// whole text, in their order, and there are no others.
pub proof fn law_blocks_of_a_text_are_its_paragraphs(paragraphs: Seq<Seq<char>>)
    requires
        paragraphs.len() > 0,
        forall|i: int| 0 <= i < paragraphs.len() ==> plain(#[trigger] paragraphs[i]),
    ensures
        ({
            let blocks = text_blocks(joined(paragraphs, "\n\n"@));
            &&& blocks.len() == paragraphs.len()
            &&& forall|i: int|
                0 <= i < blocks.len() ==> (#[trigger] blocks[i]).text == Some(paragraphs[i])
                    && blocks[i].image_path is None && blocks[i].bbox_json is None
        }),
{
    assert forall|i: int| 0 <= i < paragraphs.len() implies lacks(
        #[trigger] paragraphs[i],
        '\n',
    ) by {
        assert(plain(paragraphs[i]));
    }
    reveal_strlit("\n\n");
    lemma_pieces_joined(paragraphs, "\n\n"@);
    lemma_plain_parts(paragraphs);
}

/// A paragraph of more than 1200 bytes is split into its lines, and one that is
/// not longer is a single block.
pub proof fn law_only_long_paragraphs_are_split(lines: Seq<Seq<char>>)
    requires
        lines.len() > 0,
        forall|i: int| 0 <= i < lines.len() ==> plain(#[trigger] lines[i]),
    ensures
        ({
            let text = joined(lines, "\n"@);
            let blocks = text_blocks(text);
            &&& byte_count(text) > 1200 ==> {
                &&& blocks.len() == lines.len()
                &&& forall|i: int|
                    0 <= i < blocks.len() ==> (#[trigger] blocks[i]).text == Some(lines[i])
            }
            &&& byte_count(text) <= 1200 ==> blocks.len() == 1 && blocks[0].text == Some(text)
        }),
{
    let text = joined(lines, "\n"@);
    lemma_joined_without_gaps(lines);
    lemma_one_piece(text);
    assert(plain(lines[0]));
    assert(plain(lines[lines.len() - 1]));
    lemma_trimmed_plain(text);
    assert forall|i: int| 0 <= i < lines.len() implies one_line(#[trigger] lines[i])
        && lines[i].len() > 0 by {
        assert(plain(lines[i]));
    }
    lemma_lines_joined(lines);
    lemma_nonblank_plain(lines);
    let chunks = seq![text];
    assert(chunks.drop_last() =~= Seq::empty());
    assert(all_parts(chunks.drop_last()) =~= Seq::empty());
    assert(all_parts(chunks) =~= paragraph_parts(text));
}

/// What a line looks like: one that begins with a bar is a table, a short one
/// without a full stop is a heading, and any other is a paragraph.
pub proof fn law_types_of_lines(line: Seq<char>)
    requires
        plain(line),
    ensures
        line[0] == '|' ==> inferred_type(line) == "table"@,
        line[0] != '|' && line.contains('.') ==> inferred_type(line) == "paragraph"@,
        line[0] != '|' && !line.contains('.') && byte_count(line) < 120 ==> inferred_type(line)
            == "heading"@,
        line[0] != '|' && byte_count(line) >= 120 ==> inferred_type(line) == "paragraph"@,
{
    reveal_strlit("|");
    reveal_strlit(".");
    reveal_strlit("\n");
    lemma_trimmed_plain(line);
    assert(line.subrange(0, 1)[0] == line[0]);
    if line[0] == '|' {
        assert(line.subrange(0, 1) =~= "|"@);
    }
    assert(lacks(line, '\n'));
    lemma_lacks(line, "\n"@, 0);
    if line.contains('.') {
        let k = choose|k: int| 0 <= k < line.len() && line[k] == '.';
        assert(line.subrange(k, k + 1) =~= "."@);
        assert(matches_at(line, "."@, k));
    } else {
        assert(lacks(line, '.'));
        lemma_lacks(line, "."@, 0);
    }
}

proof fn lemma_blocks_in_all(items: Seq<JsonView>)
    requires
        forall|i: int| 0 <= i < items.len() ==> layout_block(#[trigger] items[i]) is Some,
    ensures
        blocks_in(items).len() == items.len(),
        forall|i: int|
            0 <= i < items.len() ==> Some(#[trigger] blocks_in(items)[i]) == layout_block(items[i]),
    decreases items.len(),
{
    if items.len() > 0 {
        let before = items.drop_last();
        assert forall|i: int| 0 <= i < before.len() implies layout_block(
            #[trigger] before[i],
        ) is Some by {
            assert(before[i] == items[i]);
        }
        lemma_blocks_in_all(before);
        assert(layout_block(items[items.len() - 1]) is Some);
        let all = blocks_in(items);
        assert forall|i: int| 0 <= i < items.len() implies Some(#[trigger] all[i]) == layout_block(
            items[i],
        ) by {
            if i < before.len() {
                assert(all[i] == blocks_in(before)[i]);
                assert(before[i] == items[i]);
            }
        }
    }
}

/// The blocks of a layout are its items that have a text: each of them is one
/// block, with its text, its type, its place and its style, in their order.
pub proof fn law_layout_gives_its_items(items: Seq<JsonView>, list: Seq<Seq<char>>)
    requires
        items.len() > 0,
        items.len() == list.len(),
        looks_like_block(items[0]),
        forall|i: int| 0 <= i < list.len() ==> plain(#[trigger] list[i]),
        forall|i: int|
            0 <= i < items.len() ==> (#[trigger] items[i]).member("text"@) == Some(
                JsonView::Text(list[i]),
            ),
    ensures
        ({
            let blocks = layout_blocks(JsonView::Array(items));
            &&& blocks.len() == items.len()
            &&& forall|i: int|
                0 <= i < blocks.len() ==> (#[trigger] blocks[i]).text == Some(list[i])
            &&& forall|i: int, name: Seq<char>|
                0 <= i < blocks.len() && plain(name) && #[trigger] items[i].member("block_type"@)
                    == Some(JsonView::Text(name)) ==> (#[trigger] named(blocks[i], name))
            &&& forall|i: int, place: JsonView|
                0 <= i < blocks.len() && items[i].member("bbox"@) == Some(place)
                    ==> #[trigger] placed(blocks[i], place)
            &&& forall|i: int, style: JsonView|
                0 <= i < blocks.len() && items[i].member("style"@) == Some(style)
                    ==> #[trigger] styled(blocks[i], style)
            &&& forall|i: int|
                0 <= i < blocks.len() && items[i].member("bbox"@) is None && items[i].member(
                    "bounding_box"@,
                ) is None ==> (#[trigger] blocks[i]).bbox_json is None
        }),
{
    assert(looks_like_blocks(items));
    assert forall|i: int| 0 <= i < items.len() implies layout_block(#[trigger] items[i]) is Some
        && layout_text(items[i]) == Some(list[i]) by {
        assert(plain(list[i]));
        lemma_trimmed_plain(list[i]);
        assert(string_at(items[i], "text"@) == Some(list[i]));
    }
    lemma_blocks_in_all(items);
    let blocks = layout_blocks(JsonView::Array(items));
    assert(blocks == blocks_in(items));
    assert forall|i: int, name: Seq<char>|
        0 <= i < blocks.len() && plain(name) && #[trigger] items[i].member("block_type"@) == Some(
            JsonView::Text(name),
        ) implies (#[trigger] named(blocks[i], name)) by {
        assert(Some(blocks[i]) == layout_block(items[i]));
        lemma_trimmed_plain(name);
        assert(string_at(items[i], "block_type"@) == Some(name));
    }
    assert forall|i: int, place: JsonView|
        0 <= i < blocks.len() && items[i].member("bbox"@) == Some(
            place,
        ) implies #[trigger] placed(blocks[i], place) by {
        assert(Some(blocks[i]) == layout_block(items[i]));
    }
    assert forall|i: int, style: JsonView|
        0 <= i < blocks.len() && items[i].member("style"@) == Some(
            style,
        ) implies #[trigger] styled(blocks[i], style) by {
        assert(Some(blocks[i]) == layout_block(items[i]));
    }
}

/// Whether a block has this style.
pub open spec fn styled(block: DraftView, style: JsonView) -> bool {
    block.style_json == Some(json_text(style))
}

/// An item with an image becomes a block with it; one whose image stands there as
/// data has no image, and is no block where it has no text either.
pub proof fn law_layout_keeps_images_that_are_files(value: JsonView, path: Seq<char>)
    requires
        plain(path),
        value.member("image_path"@) == Some(JsonView::Text(path)),
    ensures
        !begins_with(path, "data:"@) ==> (layout_block(value) matches Some(block)
            && block.image_path == Some(path) && block.text == layout_text(value)),
        !begins_with(path, "data:"@) && layout_type(value) is None ==> layout_block(
            value,
        )->0.block_type == "image"@,
        begins_with(path, "data:"@) && layout_text(value) is None ==> layout_block(value) is None,
        begins_with(path, "data:"@) && layout_text(value) is Some ==> (layout_block(
            value,
        ) matches Some(block) && block.image_path is None),
{
    lemma_trimmed_plain(path);
    assert(string_at(value, "image_path"@) == Some(path));
}

/// Whether a block has this type.
pub open spec fn named(block: DraftView, name: Seq<char>) -> bool {
    block.block_type == name
}

/// Whether a block has this place.
pub open spec fn placed(block: DraftView, place: JsonView) -> bool {
    block.bbox_json == Some(json_text(place))
}

/// A layout is found under any of the keys that services give it.
pub proof fn law_layout_is_found_under_its_key(key: Seq<char>, layout: JsonView)
    requires
        key == "blocks"@ || key == "layout"@ || key == "elements"@ || key == "cells"@ || key
            == "lines"@,
    ensures
        layout_blocks(empty_object().with(key, layout)) == layout_blocks(layout),
{
    reveal_strlit("blocks");
    reveal_strlit("layout");
    reveal_strlit("elements");
    reveal_strlit("cells");
    reveal_strlit("lines");
    assert("blocks"@.len() == 6 && "blocks"@[0] == 'b');
    assert("layout"@.len() == 6 && "layout"@[0] == 'l');
    assert("elements"@.len() == 8);
    assert("cells"@.len() == 5 && "cells"@[0] == 'c');
    assert("lines"@.len() == 5 && "lines"@[0] == 'l');
    let value = empty_object().with(key, layout);
    assert(value is Object);
    let found = layout_blocks(layout);
    let m = value->Object_0;
    assert(m[key] == layout);
    assert(layout_blocks(value) =~= found);
}

/// Where the layout of a page has blocks, the blocks of the page are those, and its
/// text does not matter; where it has none, they are those of the text.
pub proof fn law_layout_comes_before_text(
    document_id: i64,
    page_number: i64,
    text: Seq<char>,
    other: Seq<char>,
    layout: JsonView,
)
    ensures
        layout_blocks(layout).len() > 0 ==> page_blocks(document_id, page_number, text, layout)
            == page_blocks(document_id, page_number, other, layout),
        layout_blocks(layout).len() == 0 ==> page_blocks(
            document_id,
            page_number,
            text,
            layout,
        ).len() == text_blocks(text).len(),
        forall|i: int|
            0 <= i < page_blocks(document_id, page_number, text, layout).len() ==> (
            #[trigger] page_blocks(document_id, page_number, text, layout)[i]).text == (if layout_blocks(
                layout,
            ).len() > 0 {
                layout_blocks(layout)
            } else {
                text_blocks(text)
            })[i].text,
{
}

/// The text of an item is what stands under the first of the names for it that has
/// a text, in the order in which services are known to use them.
pub proof fn law_layout_text_by_name(value: JsonView, text: Seq<char>)
    requires
        plain(text),
    ensures
        value.member("text"@) == Some(JsonView::Text(text)) ==> layout_text(value) == Some(text),
        value.member("text"@) is None && value.member("natural_text"@) == Some(
            JsonView::Text(text),
        ) ==> layout_text(value) == Some(text),
        value.member("text"@) is None && value.member("natural_text"@) is None && value.member(
            "content"@,
        ) == Some(JsonView::Text(text)) ==> layout_text(value) == Some(text),
        value.member("text"@) is None && value.member("natural_text"@) is None && value.member(
            "content"@,
        ) is None && value.member("markdown"@) == Some(JsonView::Text(text)) ==> layout_text(value)
            == Some(text),
        value.member("text"@) is None && value.member("natural_text"@) is None && value.member(
            "content"@,
        ) is None && value.member("markdown"@) is None && value.member("caption"@) == Some(
            JsonView::Text(text),
        ) ==> layout_text(value) == Some(text),
        value.member("text"@) is None && value.member("natural_text"@) is None && value.member(
            "content"@,
        ) is None && value.member("markdown"@) is None && value.member("caption"@) is None
            ==> layout_text(value) is None,
{
    lemma_trimmed_plain(text);
}

/// The type of an item is what stands under the first of the names for it that has
/// a text; an item without a type is an image where it has one, and a paragraph
/// else.
pub proof fn law_layout_type_by_name(value: JsonView, name: Seq<char>)
    requires
        plain(name),
        layout_text(value) is Some,
    ensures
        value.member("block_type"@) == Some(JsonView::Text(name)) ==> layout_block(
            value,
        )->0.block_type == name,
        value.member("block_type"@) is None && value.member("type"@) == Some(JsonView::Text(name))
            ==> layout_block(value)->0.block_type == name,
        value.member("block_type"@) is None && value.member("type"@) is None && value.member(
            "kind"@,
        ) == Some(JsonView::Text(name)) ==> layout_block(value)->0.block_type == name,
        value.member("block_type"@) is None && value.member("type"@) is None && value.member(
            "kind"@,
        ) is None ==> layout_block(value)->0.block_type == (if layout_image(value) is Some {
            "image"@
        } else {
            "paragraph"@
        }),
{
    lemma_trimmed_plain(name);
}

/// An item that has a place or a type looks like a block, under any of the names
/// for it; one with none of them does not.
pub proof fn law_blocks_are_told_by_place_or_type(value: JsonView, key: Seq<char>)
    ensures
        (key == "bbox"@ || key == "bounding_box"@ || key == "block_type"@ || key == "type"@)
            && value.member(key) is Some ==> looks_like_block(value),
        value.member("bbox"@) is None && value.member("bounding_box"@) is None && value.member(
            "block_type"@,
        ) is None && value.member("type"@) is None ==> !looks_like_block(value),
{
}

/// The place and the style of an item are kept under either of the names for them,
/// of which the first counts where both are there.
pub proof fn law_place_and_style_by_name(value: JsonView, given: JsonView)
    requires
        layout_text(value) is Some,
    ensures
        value.member("bbox"@) == Some(given) ==> layout_block(value)->0.bbox_json == Some(
            json_text(given),
        ),
        value.member("bbox"@) is None && value.member("bounding_box"@) == Some(given)
            ==> layout_block(value)->0.bbox_json == Some(json_text(given)),
        value.member("style"@) == Some(given) ==> layout_block(value)->0.style_json == Some(
            json_text(given),
        ),
        value.member("style"@) is None && value.member("styles"@) == Some(given) ==> layout_block(
            value,
        )->0.style_json == Some(json_text(given)),
{
}

} // verus!
