//! Editing general documents: which block or which pages are edited, what the
//! language model is asked, and what is kept of its answers.
use vstd::prelude::*;

use crate::database::outcome_of;
use crate::database::ArgView;
use crate::database::Event;
use crate::database::Fault;
use crate::error::bad_request;
use crate::error::refused;
use crate::error::refused_with;
use crate::error::store_error;
use crate::error::BAD_GATEWAY;
use crate::error::BAD_REQUEST;
use crate::error::ApiError;
use crate::error::Refusal;
use crate::general::asked_for_document;
use crate::general::current_status;
use crate::general::document_in;
use crate::general::general_export_payload;
use crate::general::no_document;
use crate::general::status_answered;
use crate::general_store::revision_saved;
use crate::general_store::BLOCKS;
use crate::general_store::PAGES;
use crate::general_store::SET_BLOCK_TEXT;
use crate::general_store::GeneralDocumentBlock;
use crate::general_store::GeneralDocumentBlockView;
use crate::general_store::GeneralDocumentPage;
use crate::general_store::GeneralDocumentPageView;
use crate::general_store::GeneralDocumentSummaryView;
use crate::general_tables::has_general;
use crate::general_tables::has_page;
use crate::general_tables::law_pages_are_listed;
use crate::general_tables::law_revision_is_kept;
use crate::general_tables::page_at;
use crate::general_tables::page_of;
use crate::general_tables::page_order;
use crate::general_tables::pages_at;
use crate::number::decimal;
use crate::number::show_i64;
use crate::search::block_context;
use crate::search::general_context_for_page;
use crate::search::general_context_for_selected_block;
use crate::search::hit_views;
use crate::search::keep_page;
use crate::search::law_page_text_holds_every_block;
use crate::search::law_page_text_keeps_the_order;
use crate::search::lemma_on_page_has;
use crate::search::lemma_on_page_without;
use crate::search::matching;
use crate::search::on_page;
use crate::search::page_context;
use crate::search::page_text_from_blocks;
use crate::search::rank_general_blocks;
use crate::search::ranked;
use crate::search::text_of_blocks;
use crate::search::text_of_page;
use crate::search::Hit;
use crate::search::HitView;
use crate::sqlite::all_of;
use crate::sqlite::answer;
use crate::sqlite::any_result;
use crate::sqlite::asked;
use crate::sqlite::changed_rows;
use crate::sqlite::executed;
use crate::sqlite::meanings;
use crate::sqlite::Record;
use crate::sqlite::SqliteStore;
use crate::tables::after_events;
use crate::tables::arranged;
use crate::tables::lemma_ran_part;
use crate::tables::lemma_row_is_where_true;
use crate::tables::lemma_same_rows_members;
use crate::tables::lemma_where_true_holds;
use crate::tables::lemma_where_true_is_row;
use crate::tables::ran;
use crate::tables::where_true;
use crate::tables::Tables;
use crate::text::begins_with;
use crate::text::cat2;
use crate::text::cat5;
use crate::text::copy_option;
use crate::text::finishes_with;
use crate::text::has_text;
use crate::text::lemma_begins_with_concat;
use crate::text::lemma_holds_deeper;
use crate::text::lemma_stands_between;
use crate::text::lemma_still_holds;
use crate::text::shows_in_order;
use crate::text::string_or;
use crate::text::text_or;
use crate::text::trim;
use crate::text::trimmed;

verus! {

// ---------------------------------------------------------------------------
// What is edited
// ---------------------------------------------------------------------------

/// A request to edit a general document.
#[derive(Debug)]
pub struct GeneralEditRequest {
    pub instruction: String,
    pub page: Option<i64>,
    pub block_index: Option<i64>,
    pub all_pages: Option<bool>,
}

/// What is to be edited.
#[derive(Debug)]
pub enum EditTarget {
    /// The block at this position of the list of blocks.
    Block(usize),
    /// These pages.
    Pages(Vec<GeneralDocumentPage>),
}

/// The page that a request is about, unless it is about all.
pub open spec fn edit_page(req: GeneralEditRequest) -> i64 {
    match req.page {
        Some(n) => n,
        None => 1,
    }
}

/// Whether a block has this place.
pub open spec fn placed_at(block: GeneralDocumentBlockView, page: i64, index: i64) -> bool {
    block.page_number == page && block.block_index == index
}

/// Whether position `i` is the first with a block that has this place.
pub open spec fn first_placed(
    blocks: Seq<GeneralDocumentBlockView>,
    page: i64,
    index: i64,
    i: int,
) -> bool {
    &&& 0 <= i < blocks.len()
    &&& placed_at(blocks[i], page, index)
    &&& forall|k: int| 0 <= k < i ==> !placed_at(#[trigger] blocks[k], page, index)
}

/// What is said where there is no block with this place.
pub open spec fn no_block(page: i64, index: i64) -> Refusal {
    bad_request(
        "block "@ + decimal(index as int) + " on page "@ + decimal(page as int) + " not found"@,
    )
}

/// There is no block with this place.
fn block_not_found(page: i64, index: i64) -> (r: ApiError)
    ensures
        r@ == no_block(page, index),
{
    ApiError {
        status: BAD_REQUEST,
        detail: cat5(
            "block ",
            show_i64(index).as_str(),
            " on page ",
            show_i64(page).as_str(),
            " not found",
        ),
    }
}

/// The pages with this number.
pub open spec fn pages_numbered(pages: Seq<GeneralDocumentPageView>, page: i64) -> Seq<
    GeneralDocumentPageView,
>
    decreases pages.len(),
{
    if pages.len() == 0 {
        Seq::empty()
    } else {
        let before = pages_numbered(pages.drop_last(), page);
        if pages.last().page_number == page {
            before.push(pages.last())
        } else {
            before
        }
    }
}

/// The pages that a request is about.
pub open spec fn edit_pages(req: GeneralEditRequest, pages: Seq<GeneralDocumentPageView>) -> Seq<
    GeneralDocumentPageView,
> {
    if req.all_pages == Some(true) {
        pages
    } else {
        pages_numbered(pages, edit_page(req))
    }
}

impl GeneralDocumentPage {
    /// A copy of the page.
    pub fn copy(&self) -> (r: GeneralDocumentPage)
        ensures
            r.meaning() == self.meaning(),
    {
        GeneralDocumentPage {
            id: self.id,
            document_id: self.document_id,
            page_number: self.page_number,
            status: self.status.clone(),
            ocr_text: copy_option(&self.ocr_text),
            edited_text: copy_option(&self.edited_text),
            error: copy_option(&self.error),
            page_image_path: copy_option(&self.page_image_path),
            ocr_raw_json: copy_option(&self.ocr_raw_json),
            page_width: self.page_width,
            page_height: self.page_height,
            layout_warning: copy_option(&self.layout_warning),
            updated_at: self.updated_at.clone(),
        }
    }
}

/// The pages with this number.
fn keep_numbered(pages: &Vec<GeneralDocumentPage>, page: i64) -> (r: Vec<GeneralDocumentPage>)
    ensures
        meanings(r@) == pages_numbered(meanings(pages@), page),
{
    let ghost all = meanings(pages@);
    let mut out: Vec<GeneralDocumentPage> = Vec::new();
    assert(meanings(out@) =~= pages_numbered(all.take(0), page));
    let mut i: usize = 0;
    while i < pages.len()
        invariant
            i <= pages@.len(),
            all == meanings(pages@),
            meanings(out@) == pages_numbered(all.take(i as int), page),
        decreases pages@.len() - i,
    {
        let ghost before = out@;
        proof {
            assert(all.take(i as int + 1).drop_last() =~= all.take(i as int));
            assert(all.take(i as int + 1).last() == pages@[i as int].meaning());
        }
        if pages[i].page_number == page {
            let kept = pages[i].copy();
            out.push(kept);
            assert(meanings(out@) =~= meanings(before).push(kept.meaning()));
        }
        i += 1;
    }
    assert(all.take(all.len() as int) =~= all);
    out
}

/// Refuses a request that does not say what is to be done.
pub fn check_instruction(req: &GeneralEditRequest) -> (r: Result<(), ApiError>)
    ensures
        if trimmed(req.instruction@).len() == 0 {
            refused_with(r, bad_request("instruction is required"@))
        } else {
            r is Ok
        },
{
    if trim(req.instruction.as_str()).as_str().is_empty() {
        return Err(ApiError::new(BAD_REQUEST, "instruction is required"));
    }
    Ok(())
}

/// Chooses what is to be edited: one block where the request names one, else
/// the page that it names, the first where it names none, or all pages.
pub fn choose_target(
    req: &GeneralEditRequest,
    pages: Vec<GeneralDocumentPage>,
    blocks: &Vec<GeneralDocumentBlock>,
) -> (r: Result<EditTarget, ApiError>)
    ensures
        match req.block_index {
            Some(index) => match r {
                Ok(EditTarget::Block(i)) => first_placed(
                    meanings(blocks@),
                    edit_page(*req),
                    index,
                    i as int,
                ),
                Ok(_) => false,
                Err(e) => e@ == no_block(edit_page(*req), index) && forall|k: int|
                    0 <= k < blocks@.len() ==> !placed_at(
                        #[trigger] meanings(blocks@)[k],
                        edit_page(*req),
                        index,
                    ),
            },
            None => if edit_pages(*req, meanings(pages@)).len() == 0 {
                refused_with(r, bad_request("no pages selected"@))
            } else {
                r matches Ok(EditTarget::Pages(list)) && meanings(list@) == edit_pages(
                    *req,
                    meanings(pages@),
                )
            },
        },
{
    let page: i64 = match req.page {
        Some(n) => n,
        None => 1,
    };
    match req.block_index {
        Some(index) => {
            let ghost all = meanings(blocks@);
            let mut i: usize = 0;
            while i < blocks.len()
                invariant
                    i <= blocks@.len(),
                    all == meanings(blocks@),
                    page == edit_page(*req),
                    req.block_index == Some(index),
                    forall|k: int| 0 <= k < i ==> !placed_at(#[trigger] all[k], page, index),
                decreases blocks@.len() - i,
            {
                assert(all[i as int] == blocks@[i as int].meaning());
                if blocks[i].page_number == page && blocks[i].block_index == index {
                    return Ok(EditTarget::Block(i));
                }
                i += 1;
            }
            return Err(block_not_found(page, index));
        },
        None => {},
    }
    let all = match req.all_pages {
        Some(all) => all,
        None => false,
    };
    let chosen = if all {
        pages
    } else {
        keep_numbered(&pages, page)
    };
    assert(meanings(chosen@).len() == chosen@.len());
    if chosen.len() == 0 {
        return Err(ApiError::new(BAD_REQUEST, "no pages selected"));
    }
    Ok(EditTarget::Pages(chosen))
}

pub const GENERAL_EDITOR_SYSTEM_PROMPT: &'static str =
    "คุณคือผู้ช่วยตรวจคำผิดและจัดรูปแบบเอกสารทั่วไป รักษา layout เชิงข้อความให้มากที่สุด";

/// The most tokens of an edited text.
pub const GENERAL_EDIT_TOKENS: usize = 4096;

/// What the language model is asked to edit.
pub open spec fn general_prompt(
    text: Seq<char>,
    instruction: Seq<char>,
    context: Seq<char>,
) -> Seq<char> {
    "คำสั่ง: "@ + instruction
        + "\n\nบริบทจาก block-level RAG (ใช้เพื่อเข้าใจตำแหน่ง/ตาราง/ย่อหน้า ห้ามคัด metadata ลงผลลัพธ์):\n"@
        + context + "\n\nข้อความต้นฉบับของหน้าที่ต้องแก้:\n"@ + text
        + "\n\nส่งกลับเฉพาะข้อความที่แก้แล้ว รักษาโครงย่อหน้า หัวข้อ ตาราง markdown และลำดับบรรทัดเดิมให้มากที่สุด"@
}

/// What the language model is asked to edit.
pub fn build_general_prompt(text: &str, instruction: &str, context: &str) -> (r: String)
    ensures
        r@ == general_prompt(text@, instruction@, context@),
{
    let mut prompt = cat5(
        "คำสั่ง: ",
        instruction,
        "\n\nบริบทจาก block-level RAG (ใช้เพื่อเข้าใจตำแหน่ง/ตาราง/ย่อหน้า ห้ามคัด metadata ลงผลลัพธ์):\n",
        context,
        "\n\nข้อความต้นฉบับของหน้าที่ต้องแก้:\n",
    );
    prompt.append(text);
    prompt.append(
        "\n\nส่งกลับเฉพาะข้อความที่แก้แล้ว รักษาโครงย่อหน้า หัวข้อ ตาราง markdown และลำดับบรรทัดเดิมให้มากที่สุด",
    );
    prompt
}

/// What the language model is asked to do with a block.
pub fn block_edit_prompt(block: &GeneralDocumentBlock, instruction: &str) -> (r: String)
    ensures
        r@ == general_prompt(
            text_or(block.meaning().text, ""@),
            instruction@,
            block_context(block.meaning()),
        ),
{
    build_general_prompt(
        string_or(&block.text, ""),
        instruction,
        general_context_for_selected_block(block).as_str(),
    )
}

/// What is edited of a page: its text as edited before, else as read.
pub open spec fn page_source(page: GeneralDocumentPageView) -> Seq<char> {
    match page.edited_text {
        Some(s) => s,
        None => text_or(page.ocr_text, ""@),
    }
}

/// What the language model is asked to do with a page.
pub fn page_edit_prompt(page: &GeneralDocumentPage, instruction: &str, hits: &Vec<Hit>) -> (r:
    String)
    ensures
        r@ == general_prompt(
            page_source(page.meaning()),
            instruction@,
            page_context(hit_views(hits@), page.page_number),
        ),
{
    let source = match &page.edited_text {
        Some(s) => s.as_str(),
        None => string_or(&page.ocr_text, ""),
    };
    let context = general_context_for_page(hits, page.page_number);
    build_general_prompt(source, instruction, context.as_str())
}

/// What is said where the language model could not edit a text.
pub open spec fn edit_failure(error: Seq<char>) -> Refusal {
    Refusal { status: BAD_GATEWAY, detail: "general document edit failed: "@ + error }
}

/// The language model could not edit a text.
pub fn general_edit_failed(error: &str) -> (r: ApiError)
    ensures
        r@ == edit_failure(error@),
{
    ApiError { status: BAD_GATEWAY, detail: cat2("general document edit failed: ", error) }
}

/// The blocks with the text of those with this number replaced.
pub open spec fn with_text(
    blocks: Seq<GeneralDocumentBlockView>,
    index: i64,
    text: Seq<char>,
) -> Seq<GeneralDocumentBlockView> {
    Seq::new(
        blocks.len(),
        |i: int|
            if blocks[i].block_index == index {
                GeneralDocumentBlockView { text: Some(text), ..blocks[i] }
            } else {
                blocks[i]
            },
    )
}

/// The text of a page after one of its blocks was edited.
pub open spec fn page_after_edit(
    blocks: Seq<GeneralDocumentBlockView>,
    page: i64,
    index: i64,
    edited: Seq<char>,
) -> Seq<char> {
    text_or(text_of_blocks(with_text(on_page(blocks, page), index, edited)), edited)
}

/// The text of a page after one of its blocks was edited.
pub fn edited_page_text(
    blocks: &Vec<GeneralDocumentBlock>,
    page: i64,
    index: i64,
    edited: &str,
) -> (r: String)
    ensures
        r@ == page_after_edit(meanings(blocks@), page, index, edited@),
{
    let kept = keep_page(blocks, page);
    let ghost views = meanings(kept@);
    let mut list: Vec<GeneralDocumentBlock> = Vec::new();
    let mut i: usize = 0;
    while i < kept.len()
        invariant
            i <= kept@.len(),
            views == meanings(kept@),
            list@.len() == i,
            forall|k: int|
                0 <= k < i ==> (#[trigger] list@[k]).meaning() == with_text(
                    views,
                    index,
                    edited@,
                )[k],
        decreases kept@.len() - i,
    {
        assert(views[i as int] == kept@[i as int].meaning());
        let mut block = kept[i].copy();
        if block.block_index == index {
            block.text = Some(edited.to_owned());
        }
        list.push(block);
        i += 1;
    }
    assert(meanings(list@) =~= with_text(views, index, edited@));
    match page_text_from_blocks(&list) {
        Some(text) => text,
        None => edited.to_owned(),
    }
}

/// Whether the history has grown by the statements that keep an edited text and,
/// if they were carried out, by the question for the status.
pub open spec fn revised(
    before: Seq<Event>,
    after: Seq<Event>,
    id: i64,
    page: i64,
    instruction: Seq<char>,
    text: Seq<char>,
    r: Result<String, ApiError>,
) -> bool {
    exists|mid: Seq<Event>, saved: Result<(), Fault>|
        {
            &&& #[trigger] revision_saved(before, mid, id, page, instruction, text, saved)
            &&& match saved {
                Err(f) => after == mid && refused(r, f),
                Ok(_) => status_answered(mid, after, id, r),
            }
        }
}

/// Whether the history has grown by the statement that keeps an edited block
/// and, if there was such a block, by those that keep the text of its page.
pub open spec fn block_edited(
    before: Seq<Event>,
    after: Seq<Event>,
    id: i64,
    page: i64,
    index: i64,
    instruction: Seq<char>,
    edited: Seq<char>,
    blocks: Seq<GeneralDocumentBlockView>,
    r: Result<String, ApiError>,
) -> bool {
    let first = after.take(before.len() as int + 1);
    &&& after.len() > before.len()
    &&& executed(
        before,
        first,
        SET_BLOCK_TEXT@,
        seq![
            ArgView::Text(edited),
            ArgView::Integer(id),
            ArgView::Integer(page),
            ArgView::Integer(index),
        ],
    )
    &&& match any_result(changed_rows(first)) {
        Err(f) => after == first && refused(r, f),
        Ok(false) => after == first && refused_with(r, no_block(page, index)),
        Ok(true) => revised(
            first,
            after,
            id,
            page,
            instruction,
            page_after_edit(blocks, page, index, edited),
            r,
        ),
    }
}

/// Keeps an edited block and the text of its page, and gives back the status of
/// the document.
pub fn finish_block_edit(
    store: &mut SqliteStore,
    id: i64,
    page: i64,
    index: i64,
    instruction: &str,
    edited: &str,
    blocks: &Vec<GeneralDocumentBlock>,
) -> (r: Result<String, ApiError>)
    ensures
        block_edited(
            old(store).history(),
            final(store).history(),
            id,
            page,
            index,
            instruction@,
            edited@,
            meanings(blocks@),
            r,
        ),
{
    let text = edited_page_text(blocks, page, index, edited);
    let ghost before = store.history();
    let changed = store.update_general_block_text(id, page, index, edited);
    let ghost first = store.history();
    assert(first.take(before.len() as int + 1) =~= first);
    match changed {
        Ok(true) => {},
        Ok(false) => {
            return Err(block_not_found(page, index));
        },
        Err(e) => {
            return Err(store_error(&e));
        },
    }
    let saved = store.save_general_revision(id, page, instruction, text.as_str());
    let ghost mid = store.history();
    proof {
        assert(revision_saved(first, mid, id, page, instruction@, text@, outcome_of(saved)));
        lemma_revision_extends(first, mid, id, page, instruction@, text@, outcome_of(saved));
        assert(mid.take(before.len() as int + 1) =~= first) by {
            assert(mid.take(first.len() as int) == first);
        }
    }
    match saved {
        Ok(_) => {},
        Err(e) => {
            return Err(store_error(&e));
        },
    }
    let status = current_status(store, id);
    proof {
        let after = store.history();
        assert(after.take(before.len() as int + 1) =~= mid.take(before.len() as int + 1)) by {
            assert(after.drop_last() == mid);
        }
    }
    status
}

/// A revision only adds to the history.
proof fn lemma_revision_extends(
    before: Seq<Event>,
    after: Seq<Event>,
    id: i64,
    page: i64,
    instruction: Seq<char>,
    text: Seq<char>,
    result: Result<(), Fault>,
)
    requires
        revision_saved(before, after, id, page, instruction, text, result),
    ensures
        after.len() > before.len(),
        after.take(before.len() as int) == before,
{
    let first = after.take(before.len() as int + 1);
    assert(first.drop_last() =~= after.take(before.len() as int));
}

// ---------------------------------------------------------------------------
// The run
// ---------------------------------------------------------------------------

/// What is to be done next.
#[derive(Debug)]
pub enum GeneralEdit {
    /// One block is to be edited.
    Block(BlockEdit),
    /// The blocks are to be ranked by how well they match the instruction, and
    /// then the pages are edited.
    Rank(PagesChosen),
}

/// A block that is to be edited.
#[derive(Debug)]
pub struct BlockEdit {
    pub id: i64,
    pub page: i64,
    pub index: i64,
    pub instruction: String,
    /// What the language model is asked.
    pub prompt: String,
    /// The blocks of the document.
    pub blocks: Vec<GeneralDocumentBlock>,
}

/// Pages that are to be edited.
#[derive(Debug)]
pub struct PagesChosen {
    pub id: i64,
    pub instruction: String,
    pub pages: Vec<GeneralDocumentPage>,
    /// The blocks of the document.
    pub blocks: Vec<GeneralDocumentBlock>,
}

/// What is decided from the request and what the store holds.
pub open spec fn edit_begun(
    id: i64,
    req: GeneralEditRequest,
    pages: Seq<GeneralDocumentPageView>,
    blocks: Seq<GeneralDocumentBlockView>,
    r: Result<GeneralEdit, ApiError>,
) -> bool {
    match req.block_index {
        Some(index) => match r {
            Ok(GeneralEdit::Block(edit)) => {
                &&& edit.id == id
                &&& edit.page == edit_page(req)
                &&& edit.index == index
                &&& edit.instruction@ == req.instruction@
                &&& meanings(edit.blocks@) == blocks
                &&& exists|i: int|
                    #![trigger blocks[i]]
                    first_placed(blocks, edit_page(req), index, i) && edit.prompt@
                        == general_prompt(
                        text_or(blocks[i].text, ""@),
                        req.instruction@,
                        block_context(blocks[i]),
                    )
            },
            Ok(_) => false,
            Err(e) => e@ == no_block(edit_page(req), index) && forall|k: int|
                0 <= k < blocks.len() ==> !placed_at(
                    #[trigger] blocks[k],
                    edit_page(req),
                    index,
                ),
        },
        None => if edit_pages(req, pages).len() == 0 {
            refused_with(r, bad_request("no pages selected"@))
        } else {
            r matches Ok(GeneralEdit::Rank(chosen)) && chosen.id == id && chosen.instruction@
                == req.instruction@ && meanings(chosen.pages@) == edit_pages(req, pages)
                && meanings(chosen.blocks@) == blocks
        },
    }
}

/// Begins an edit with what the store holds.
pub fn begin_edit(
    id: i64,
    req: &GeneralEditRequest,
    pages: Vec<GeneralDocumentPage>,
    blocks: Vec<GeneralDocumentBlock>,
) -> (r: Result<GeneralEdit, ApiError>)
    ensures
        edit_begun(id, *req, meanings(pages@), meanings(blocks@), r),
{
    let ghost views = meanings(blocks@);
    match choose_target(req, pages, &blocks) {
        Ok(EditTarget::Block(i)) => {
            assert(views[i as int] == blocks@[i as int].meaning());
            let prompt = block_edit_prompt(&blocks[i], req.instruction.as_str());
            let page: i64 = blocks[i].page_number;
            let index: i64 = blocks[i].block_index;
            Ok(
                GeneralEdit::Block(
                    BlockEdit {
                        id,
                        page,
                        index,
                        instruction: req.instruction.clone(),
                        prompt,
                        blocks,
                    },
                ),
            )
        },
        Ok(EditTarget::Pages(pages)) => Ok(
            GeneralEdit::Rank(
                PagesChosen { id, instruction: req.instruction.clone(), pages, blocks },
            ),
        ),
        Err(e) => Err(e),
    }
}

/// Begins to edit a general document: the request has to say what is to be
/// done, and the document has to be there.
pub fn edit_general_document(store: &mut SqliteStore, id: i64, req: &GeneralEditRequest) -> (r:
    Result<GeneralEdit, ApiError>)
    ensures
        ({
            let before = old(store).history();
            let after = final(store).history();
            let n = before.len() as int;
            let first = after.take(n + 1);
            let second = after.take(n + 2);
            if trimmed(req.instruction@).len() == 0 {
                after == before && refused_with(r, bad_request("instruction is required"@))
            } else {
                &&& after.len() > n
                &&& asked_for_document(before, first, id)
                &&& match document_in(first) {
                    Err(f) => after == first && refused(r, f),
                    Ok(None) => after == first && refused_with(r, no_document(id)),
                    Ok(Some(_)) => {
                        &&& after.len() > n + 1
                        &&& asked(first, second, PAGES@, seq![ArgView::Integer(id)])
                        &&& match all_of::<GeneralDocumentPage>(answer(second)) {
                            Err(f) => after == second && refused(r, f),
                            Ok(pages) => {
                                &&& asked(second, after, BLOCKS@, seq![ArgView::Integer(id)])
                                &&& match all_of::<GeneralDocumentBlock>(answer(after)) {
                                    Err(f) => refused(r, f),
                                    Ok(blocks) => edit_begun(id, *req, pages, blocks, r),
                                }
                            },
                        }
                    },
                }
            }
        }),
{
    match check_instruction(req) {
        Ok(_) => {},
        Err(e) => {
            return Err(e);
        },
    }
    match general_export_payload(store, id) {
        Ok((_, pages, blocks)) => begin_edit(id, req, pages, blocks),
        Err(e) => Err(e),
    }
}

impl BlockEdit {
    /// Goes on when the language model has answered: the block and the text of
    /// its page are kept, and the status of the document is the result.
    pub fn answered(self, store: &mut SqliteStore, reply: Result<String, String>) -> (r: Result<
        String,
        ApiError,
    >)
        ensures
            match reply {
                Err(e) => final(store).history() == old(store).history() && refused_with(
                    r,
                    edit_failure(e@),
                ),
                Ok(edited) => block_edited(
                    old(store).history(),
                    final(store).history(),
                    self.id,
                    self.page,
                    self.index,
                    self.instruction@,
                    edited@,
                    meanings(self.blocks@),
                    r,
                ),
            },
    {
        match reply {
            Ok(edited) => finish_block_edit(
                store,
                self.id,
                self.page,
                self.index,
                self.instruction.as_str(),
                edited.as_str(),
                &self.blocks,
            ),
            Err(e) => Err(general_edit_failed(e.as_str())),
        }
    }
}

/// Pages that are being edited.
#[derive(Debug)]
pub struct PageEdits {
    pub id: i64,
    pub instruction: String,
    pub pages: Vec<GeneralDocumentPage>,
    /// The hits, the best first.
    pub hits: Vec<Hit>,
    /// How many pages have been edited.
    pub done: usize,
}

/// What comes after a page has been edited.
#[derive(Debug)]
pub enum PageEditStep {
    /// Another page is to be edited.
    More(PageEdits),
    /// All pages have been edited, and this is the status of the document.
    Finished(String),
}

impl PagesChosen {
    /// Goes on when the hits are there, with the first page.
    pub fn with_hits(self, hits: &Vec<Hit>) -> (r: PageEdits)
        ensures
            r.id == self.id,
            r.instruction@ == self.instruction@,
            r.pages@ == self.pages@,
            hit_views(r.hits@) == ranked(matching(hit_views(hits@))),
            r.done == 0,
    {
        PageEdits {
            id: self.id,
            instruction: self.instruction,
            pages: self.pages,
            hits: rank_general_blocks(hits),
            done: 0,
        }
    }
}

impl PageEdits {
    /// Whether there is a page to be edited.
    pub open spec fn wf(&self) -> bool {
        self.done < self.pages@.len()
    }

    /// What the language model is asked to do with the page whose turn it is.
    pub fn prompt(&self) -> (r: String)
        requires
            self.wf(),
        ensures
            ({
                let page = self.pages@[self.done as int].meaning();
                r@ == general_prompt(
                    page_source(page),
                    self.instruction@,
                    page_context(hit_views(self.hits@), page.page_number),
                )
            }),
    {
        page_edit_prompt(&self.pages[self.done], self.instruction.as_str(), &self.hits)
    }

    /// Goes on when the language model has answered: the page is kept, and the
    /// next page is edited, or the status of the document is the result.
    pub fn answered(self, store: &mut SqliteStore, reply: Result<String, String>) -> (r: Result<
        PageEditStep,
        ApiError,
    >)
        requires
            self.wf(),
        ensures
            match reply {
                Err(e) => final(store).history() == old(store).history() && refused_with(
                    r,
                    edit_failure(e@),
                ),
                Ok(edited) => exists|mid: Seq<Event>, saved: Result<(), Fault>|
                    {
                        &&& #[trigger] revision_saved(
                            old(store).history(),
                            mid,
                            self.id,
                            self.pages@[self.done as int].page_number,
                            self.instruction@,
                            edited@,
                            saved,
                        )
                        &&& match saved {
                            Err(f) => final(store).history() == mid && refused(r, f),
                            Ok(_) => if self.done + 1 < self.pages@.len() {
                                &&& final(store).history() == mid
                                &&& r matches Ok(PageEditStep::More(next)) && next.wf() && next.id
                                    == self.id && next.instruction@ == self.instruction@
                                    && next.pages@ == self.pages@ && next.hits@ == self.hits@
                                    && next.done == self.done + 1
                            } else {
                                exists|s: Result<String, ApiError>|
                                    {
                                        &&& #[trigger] status_answered(
                                            mid,
                                            final(store).history(),
                                            self.id,
                                            s,
                                        )
                                        &&& r == ended_with(s)
                                    }
                            },
                        }
                    },
            },
    {
        let edited = match reply {
            Ok(edited) => edited,
            Err(e) => {
                return Err(general_edit_failed(e.as_str()));
            },
        };
        let page: i64 = self.pages[self.done].page_number;
        let saved = store.save_general_revision(
            self.id,
            page,
            self.instruction.as_str(),
            edited.as_str(),
        );
        let ghost mid = store.history();
        assert(revision_saved(
            old(store).history(),
            mid,
            self.id,
            page,
            self.instruction@,
            edited@,
            outcome_of(saved),
        ));
        match saved {
            Ok(_) => {},
            Err(e) => {
                return Err(store_error(&e));
            },
        }
        let count: usize = self.pages.len();
        if self.done + 1 < count {
            return Ok(
                PageEditStep::More(
                    PageEdits {
                        id: self.id,
                        instruction: self.instruction,
                        pages: self.pages,
                        hits: self.hits,
                        done: self.done + 1,
                    },
                ),
            );
        }
        let s = current_status(store, self.id);
        assert(status_answered(mid, store.history(), self.id, s));
        match s {
            Ok(status) => Ok(PageEditStep::Finished(status)),
            Err(e) => Err(e),
        }
    }
}

/// The end of an edit.
pub open spec fn ended_with(s: Result<String, ApiError>) -> Result<PageEditStep, ApiError> {
    match s {
        Ok(status) => Ok(PageEditStep::Finished(status)),
        Err(e) => Err(e),
    }
}

// ---------------------------------------------------------------------------
// Laws
// ---------------------------------------------------------------------------

/// What the language model is asked begins with the instruction, shows the
/// context, and ends with the text that is to be edited and the request for the
/// edited text alone.
pub proof fn law_prompt_asks_about_the_text(
    text: Seq<char>,
    instruction: Seq<char>,
    context: Seq<char>,
)
    ensures
        ({
            let prompt = general_prompt(text, instruction, context);
            &&& begins_with(prompt, "คำสั่ง: "@ + instruction + "\n\n"@)
            &&& has_text(prompt, "\n"@ + context + "\n\n"@)
            &&& finishes_with(
                prompt,
                "\n\nข้อความต้นฉบับของหน้าที่ต้องแก้:\n"@ + text
                    + "\n\nส่งกลับเฉพาะข้อความที่แก้แล้ว รักษาโครงย่อหน้า หัวข้อ ตาราง markdown และลำดับบรรทัดเดิมให้มากที่สุด"@,
            )
        }),
{
    let prompt = general_prompt(text, instruction, context);
    let note =
        "บริบทจาก block-level RAG (ใช้เพื่อเข้าใจตำแหน่ง/ตาราง/ย่อหน้า ห้ามคัด metadata ลงผลลัพธ์):"@;
    let label = "ข้อความต้นฉบับของหน้าที่ต้องแก้:\n"@;
    let end =
        "\n\nส่งกลับเฉพาะข้อความที่แก้แล้ว รักษาโครงย่อหน้า หัวข้อ ตาราง markdown และลำดับบรรทัดเดิมให้มากที่สุด"@;
    lemma_prompt_pieces();
    let start = "คำสั่ง: "@ + instruction + "\n\n"@;
    let shown = "\n"@ + context + "\n\n"@;
    let rest = note + shown + label + text + end;
    assert(prompt =~= start + rest);
    lemma_begins_with_concat(start, rest);
    assert(prompt =~= (start + note) + shown + (label + text + end));
    lemma_stands_between(start + note, shown, label + text + end);
    let last = "\n\nข้อความต้นฉบับของหน้าที่ต้องแก้:\n"@ + text + end;
    let front = start + note + "\n"@ + context;
    let none = Seq::<char>::empty();
    assert(prompt =~= front + last + none);
    lemma_stands_between(front, last, none);
}

proof fn lemma_prompt_pieces()
    ensures
        "\n\nบริบทจาก block-level RAG (ใช้เพื่อเข้าใจตำแหน่ง/ตาราง/ย่อหน้า ห้ามคัด metadata ลงผลลัพธ์):\n"@
            == "\n\n"@
            + "บริบทจาก block-level RAG (ใช้เพื่อเข้าใจตำแหน่ง/ตาราง/ย่อหน้า ห้ามคัด metadata ลงผลลัพธ์):"@
            + "\n"@,
        "\n\nข้อความต้นฉบับของหน้าที่ต้องแก้:\n"@ == "\n\n"@ + "ข้อความต้นฉบับของหน้าที่ต้องแก้:\n"@,
{
    reveal_strlit(
        "\n\nบริบทจาก block-level RAG (ใช้เพื่อเข้าใจตำแหน่ง/ตาราง/ย่อหน้า ห้ามคัด metadata ลงผลลัพธ์):\n",
    );
    reveal_strlit(
        "บริบทจาก block-level RAG (ใช้เพื่อเข้าใจตำแหน่ง/ตาราง/ย่อหน้า ห้ามคัด metadata ลงผลลัพธ์):",
    );
    reveal_strlit("\n");
    reveal_strlit("\n\n");
    reveal_strlit("\n\nข้อความต้นฉบับของหน้าที่ต้องแก้:\n");
    reveal_strlit("ข้อความต้นฉบับของหน้าที่ต้องแก้:\n");
    assert("\n\nบริบทจาก block-level RAG (ใช้เพื่อเข้าใจตำแหน่ง/ตาราง/ย่อหน้า ห้ามคัด metadata ลงผลลัพธ์):\n"@
        =~= "\n\n"@
        + "บริบทจาก block-level RAG (ใช้เพื่อเข้าใจตำแหน่ง/ตาราง/ย่อหน้า ห้ามคัด metadata ลงผลลัพธ์):"@
        + "\n"@);
    assert("\n\nข้อความต้นฉบับของหน้าที่ต้องแก้:\n"@ =~= "\n\n"@
        + "ข้อความต้นฉบับของหน้าที่ต้องแก้:\n"@);
}

/// Whether a prompt ends with a text as the one that is to be edited.
pub open spec fn asks_to_edit(prompt: Seq<char>, text: Seq<char>) -> bool {
    finishes_with(
        prompt,
        "\n\nข้อความต้นฉบับของหน้าที่ต้องแก้:\n"@ + text
            + "\n\nส่งกลับเฉพาะข้อความที่แก้แล้ว รักษาโครงย่อหน้า หัวข้อ ตาราง markdown และลำดับบรรทัดเดิมให้มากที่สุด"@,
    )
}

/// What is to be edited of a page is its text as edited before, whatever was read
/// from the scan; the text as read is edited only where the page has not been
/// edited.
pub proof fn law_edited_text_is_edited_further(
    page: GeneralDocumentPageView,
    instruction: Seq<char>,
    context: Seq<char>,
)
    ensures
        page.edited_text matches Some(edited) ==> asks_to_edit(
            general_prompt(page_source(page), instruction, context),
            edited,
        ),
        page.edited_text is None ==> (page.ocr_text matches Some(read) ==> asks_to_edit(
            general_prompt(page_source(page), instruction, context),
            read,
        )),
{
    law_prompt_asks_about_the_text(page_source(page), instruction, context);
}

/// Edits build on each other: once a revision of a page has been saved with a
/// text, the next edit of that page, from what the store then holds, asks for
/// that text to be edited, whatever was read from the scan.
pub proof fn law_edits_build_on_each_other(
    states: Seq<Tables>,
    before: Seq<Event>,
    kept: Seq<Event>,
    after: Seq<Event>,
    row: GeneralDocumentSummaryView,
    page: GeneralDocumentPageView,
    instruction: Seq<char>,
    text: Seq<char>,
    pages: Seq<GeneralDocumentPageView>,
    i: int,
    next: Seq<char>,
    hits: Seq<HitView>,
)
    requires
        ran(states, after),
        page.document_id == row.id,
        revision_saved(before, kept, row.id, page.page_number, instruction, text, Ok(())),
        has_general(after_events(states, before.len()).general, row),
        has_page(after_events(states, before.len()).general, page),
        asked(kept, after, PAGES@, seq![ArgView::Integer(row.id)]),
        all_of::<GeneralDocumentPage>(answer(after)) == Ok::<
            Seq<GeneralDocumentPageView>,
            Fault,
        >(pages),
        0 <= i < pages.len(),
        pages[i].page_number == page.page_number,
    ensures
        asks_to_edit(
            general_prompt(
                page_source(pages[i]),
                next,
                page_context(hits, pages[i].page_number),
            ),
            text,
        ),
        text_of_page(pages[i]) == text,
{
    let n = kept.len() as int;
    assert(after.take(n) =~= kept);
    lemma_ran_part(states, after, n);
    let held = states.take(n + 1);
    let now = law_revision_is_kept(held, before, kept, row, page, instruction, text);
    assert(after_events(held, kept.len()) == after_events(states, kept.len()));
    let list = law_pages_are_listed(states, kept, after, row.id);
    assert(list == pages);
    let rows = after_events(states, kept.len()).general.pages;
    lemma_listed_page_is_the_only_one(rows, row.id, pages, i, now);
    law_edited_text_is_edited_further(pages[i], next, page_context(hits, pages[i].page_number));
}

/// A page that is listed for a document is the only page with its place.
proof fn lemma_listed_page_is_the_only_one(
    rows: Seq<GeneralDocumentPageView>,
    id: i64,
    list: Seq<GeneralDocumentPageView>,
    i: int,
    page: GeneralDocumentPageView,
)
    requires
        arranged(list, where_true(rows, page_of(id)), page_order()),
        pages_at(rows, id, page.page_number) == seq![page],
        0 <= i < list.len(),
        list[i].page_number == page.page_number,
    ensures
        list[i] == page,
{
    let own = where_true(rows, page_of(id));
    lemma_same_rows_members(list, own, i);
    lemma_where_true_holds(rows, page_of(id));
    let m = choose|m: int| 0 <= m < own.len() && own[m] == list[i];
    assert(page_of(id)(own[m]));
    let k = lemma_where_true_is_row(rows, page_of(id), m);
    let condition = |p: GeneralDocumentPageView| page_at(p, id, page.page_number);
    assert(condition(rows[k]));
    let j = lemma_row_is_where_true(rows, condition, k);
    assert(seq![page][j] == rows[k]);
}

/// What the language model is asked about a block is to edit its text, and shows
/// where the block is and what it is.
pub proof fn law_block_prompt_asks_about_the_block(
    block: GeneralDocumentBlockView,
    instruction: Seq<char>,
    text: Seq<char>,
)
    requires
        block.text == Some(text),
    ensures
        ({
            let prompt = general_prompt(
                text_or(block.text, ""@),
                instruction,
                block_context(block),
            );
            &&& asks_to_edit(prompt, text)
            &&& begins_with(prompt, "คำสั่ง: "@ + instruction + "\n\n"@)
            &&& has_text(
                prompt,
                "page="@ + decimal(block.page_number as int) + " block="@ + decimal(
                    block.block_index as int,
                ) + " type="@ + block.block_type,
            )
        }),
{
    let context = block_context(block);
    law_prompt_asks_about_the_text(text, instruction, context);
    let place = "page="@ + decimal(block.page_number as int) + " block="@ + decimal(
        block.block_index as int,
    ) + " type="@ + block.block_type;
    let rest = " bbox="@ + text_or(block.bbox_json, "-"@) + " text="@ + text_or(block.text, ""@);
    let none = Seq::<char>::empty();
    assert(context =~= none + place + rest);
    lemma_stands_between(none, place, rest);
    let shown = "\n"@ + context + "\n\n"@;
    lemma_still_holds("\n"@, context, "\n\n"@, place);
    lemma_holds_deeper(general_prompt(text, instruction, context), shown, place);
}

/// Once a block was edited, the text of its page holds the edited text in place of
/// the old one, and the texts of the other blocks of the page as they were.
pub proof fn law_page_after_edit_holds_its_blocks(
    blocks: Seq<GeneralDocumentBlockView>,
    page: i64,
    index: i64,
    edited: Seq<char>,
    i: int,
    j: int,
    other: Seq<char>,
)
    requires
        0 <= i < blocks.len(),
        blocks[i].page_number == page,
        blocks[i].block_index == index,
        trimmed(edited).len() > 0,
        0 <= j < blocks.len(),
        blocks[j].page_number == page,
        blocks[j].block_index != index,
        blocks[j].text == Some(other),
        trimmed(other).len() > 0,
    ensures
        ({
            let text = page_after_edit(blocks, page, index, edited);
            &&& has_text(text, trimmed(edited))
            &&& has_text(text, trimmed(other))
            &&& index < blocks[j].block_index ==> shows_in_order(
                text,
                trimmed(edited),
                trimmed(other),
            )
            &&& blocks[j].block_index < index ==> shows_in_order(
                text,
                trimmed(other),
                trimmed(edited),
            )
        }),
{
    let own = on_page(blocks, page);
    let now = with_text(own, index, edited);
    let k = lemma_on_page_has(blocks, page, i);
    let l = lemma_on_page_has(blocks, page, j);
    assert(now[k].text == Some(edited));
    assert(now[l].text == Some(other));
    law_page_text_holds_every_block(now, k, edited);
    law_page_text_holds_every_block(now, l, other);
    if index < blocks[j].block_index {
        law_page_text_keeps_the_order(now, k, l, edited, other);
    } else {
        law_page_text_keeps_the_order(now, l, k, other, edited);
    }
}

/// What an edit of a block makes of its page does not depend on the blocks of
/// other pages.
pub proof fn law_page_after_edit_is_of_the_page(
    blocks: Seq<GeneralDocumentBlockView>,
    page: i64,
    index: i64,
    edited: Seq<char>,
    k: int,
)
    requires
        0 <= k < blocks.len(),
        blocks[k].page_number != page,
    ensures
        page_after_edit(blocks.remove(k), page, index, edited) == page_after_edit(
            blocks,
            page,
            index,
            edited,
        ),
{
    lemma_on_page_without(blocks, page, k);
}

/// A page with a number is among the pages with that number, and no others are.
proof fn lemma_pages_numbered(pages: Seq<GeneralDocumentPageView>, number: i64)
    ensures
        forall|i: int|
            0 <= i < pages.len() && pages[i].page_number == number ==> pages_numbered(
                pages,
                number,
            ).contains(#[trigger] pages[i]),
        forall|k: int|
            0 <= k < pages_numbered(pages, number).len() ==> (#[trigger] pages_numbered(
                pages,
                number,
            )[k]).page_number == number && pages.contains(pages_numbered(pages, number)[k]),
        pages_numbered(pages, number).len() <= pages.len(),
    decreases pages.len(),
{
    if pages.len() > 0 {
        let before = pages.drop_last();
        lemma_pages_numbered(before, number);
        let was = pages_numbered(before, number);
        let now = pages_numbered(pages, number);
        assert forall|i: int|
            0 <= i < pages.len() && pages[i].page_number == number implies now.contains(
            #[trigger] pages[i],
        ) by {
            if i == pages.len() - 1 {
                assert(now[now.len() - 1] == pages[i]);
            } else {
                assert(was.contains(before[i]));
                let k = choose|k: int| 0 <= k < was.len() && was[k] == before[i];
                assert(now[k] == pages[i]);
            }
        }
        assert forall|k: int| 0 <= k < now.len() implies (#[trigger] now[k]).page_number == number
            && pages.contains(now[k]) by {
            if k < was.len() {
                assert(now[k] == was[k]);
                let i = choose|i: int| 0 <= i < before.len() && before[i] == was[k];
                assert(pages[i] == now[k]);
            } else {
                assert(now[k] == pages[pages.len() - 1]);
            }
        }
    }
}

/// A request is about all pages where it asks for them, and else about the page
/// that it names, which is the first where it names none.
pub proof fn law_edit_is_of_the_pages_asked_for(
    req: GeneralEditRequest,
    pages: Seq<GeneralDocumentPageView>,
    i: int,
)
    requires
        0 <= i < pages.len(),
    ensures
        req.all_pages == Some(true) ==> edit_pages(req, pages) == pages,
        req.all_pages != Some(true) ==> {
            let wanted = match req.page {
                Some(n) => n,
                None => 1,
            };
            &&& edit_pages(req, pages).contains(pages[i]) <==> pages[i].page_number == wanted
            &&& edit_pages(req, pages).len() <= pages.len()
        },
{
    lemma_pages_numbered(pages, edit_page(req));
    if req.all_pages != Some(true) && edit_pages(req, pages).contains(pages[i]) {
        let list = edit_pages(req, pages);
        let k = choose|k: int| 0 <= k < list.len() && list[k] == pages[i];
        assert(list[k].page_number == edit_page(req));
    }
}

/// There is at most one first block with a place.
pub proof fn law_first_placed_is_one(
    blocks: Seq<GeneralDocumentBlockView>,
    page: i64,
    index: i64,
    i: int,
    j: int,
)
    requires
        first_placed(blocks, page, index, i),
        first_placed(blocks, page, index, j),
    ensures
        i == j,
        blocks[i].page_number == page,
        blocks[i].block_index == index,
{
    if i < j {
        assert(!placed_at(blocks[i], page, index));
    } else if j < i {
        assert(!placed_at(blocks[j], page, index));
    }
}

} // verus!
