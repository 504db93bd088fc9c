//! What the tables of the general documents hold, and what follows for the
//! operations on them.
use vstd::prelude::*;

use crate::database::column_fits;
use crate::database::row_fault;
use crate::database::row_fault_from;
use crate::database::ArgView;
use crate::database::CellView;
use crate::database::Event;
use crate::database::Fault;
use crate::general_store::block_prefix;
use crate::general_store::blocks_replaced;
use crate::general_store::carried_out;
use crate::general_store::count_at;
use crate::general_store::count_sql;
use crate::general_store::counted;
use crate::general_store::document_created;
use crate::general_store::for_each_page;
use crate::general_store::keeps_block;
use crate::general_store::page_ocr_args;
use crate::general_store::page_statement;
use crate::general_store::revision_saved;
use crate::general_store::status_text;
use crate::general_store::status_updated;
use crate::general_store::told_with_status;
use crate::general_store::GeneralDocumentBlock;
use crate::general_store::GeneralDocumentBlockView;
use crate::general_store::GeneralDocumentPage;
use crate::general_store::GeneralDocumentPageView;
use crate::general_store::GeneralDocumentSummary;
use crate::general_store::GeneralDocumentSummaryView;
use crate::general_store::NewGeneralDocument;
use crate::general_store::BLOCKS;
use crate::general_store::BLOCKS_OF_PAGE;
use crate::general_store::COUNT_FAILED;
use crate::general_store::COUNT_PAGES;
use crate::general_store::COUNT_SUCCEEDED;
use crate::general_store::CREATE_BLOCK;
use crate::general_store::CREATE_GENERAL_DOCUMENT;
use crate::general_store::CREATE_PAGE;
use crate::general_store::CREATE_REVISION;
use crate::general_store::DELETE_GENERAL_DOCUMENT;
use crate::general_store::DELETE_PAGE_BLOCKS;
use crate::general_store::ENSURE_PAGE;
use crate::general_store::GENERAL_DOCUMENTS;
use crate::general_store::GET_GENERAL_DOCUMENT;
use crate::general_store::GET_PAGE;
use crate::general_store::PAGES;
use crate::general_store::ROLLBACK;
use crate::general_store::SET_BLOCK_TEXT;
use crate::general_store::SET_EDITED_TEXT;
use crate::general_store::SET_FILE_PATH;
use crate::general_store::SET_PAGE_ASSET;
use crate::general_store::SET_PAGE_COUNT;
use crate::general_store::SET_PAGE_OCR;
use crate::general_store::SET_STATUS;
use crate::json::json_text;
use crate::json::JsonView;
use crate::reading::page_marked;
use crate::sqlite::all_of;
use crate::sqlite::answer;
use crate::sqlite::asked;
use crate::sqlite::changed_rows;
use crate::sqlite::executed;
use crate::sqlite::first_of;
use crate::sqlite::Record;
use crate::tables::after_events;
use crate::tables::arg_number;
use crate::tables::arg_option;
use crate::tables::arg_text;
use crate::tables::arranged;
use crate::tables::cell_or_null;
use crate::tables::lemma_all_read;
use crate::tables::lemma_arranged_once;
use crate::tables::lemma_ran_part;
use crate::tables::lemma_where_true_all;
use crate::tables::lemma_where_true_holds;
use crate::tables::lemma_where_true_joined;
use crate::tables::lemma_where_true_without;
use crate::tables::newest_first;
use crate::tables::obeys;
use crate::tables::ran;
use crate::tables::where_true;
use crate::tables::Tables;

verus! {

// ---------------------------------------------------------------------------
// Rows
// ---------------------------------------------------------------------------

/// The rows of the general documents, their pages and their blocks.
pub struct GeneralRows {
    pub documents: Seq<GeneralDocumentSummaryView>,
    pub pages: Seq<GeneralDocumentPageView>,
    pub blocks: Seq<GeneralDocumentBlockView>,
}

/// The number of an argument that may have none.
pub open spec fn arg_opt_number(arg: ArgView) -> Option<i64> {
    match arg {
        ArgView::Integer(n) => Some(n),
        _ => None,
    }
}

/// Whether each row was changed in this way, with the time that the database
/// gave it.
pub open spec fn documents_changed(
    before: Seq<GeneralDocumentSummaryView>,
    after: Seq<GeneralDocumentSummaryView>,
    id: i64,
    change: spec_fn(GeneralDocumentSummaryView) -> GeneralDocumentSummaryView,
) -> bool {
    &&& after.len() == before.len()
    &&& forall|i: int|
        0 <= i < before.len() ==> #[trigger] after[i] == if before[i].id == id {
            GeneralDocumentSummaryView {
                updated_at: after[i].updated_at,
                ..change(before[i])
            }
        } else {
            before[i]
        }
}

/// Whether a page has this place.
pub open spec fn page_at(page: GeneralDocumentPageView, document_id: i64, number: i64) -> bool {
    page.document_id == document_id && page.page_number == number
}

/// Whether each page with this place was changed in this way, with the time that
/// the database gave it.
pub open spec fn pages_changed(
    before: Seq<GeneralDocumentPageView>,
    after: Seq<GeneralDocumentPageView>,
    document_id: i64,
    number: i64,
    change: spec_fn(GeneralDocumentPageView) -> GeneralDocumentPageView,
) -> bool {
    &&& after.len() == before.len()
    &&& forall|i: int|
        0 <= i < before.len() ==> #[trigger] after[i] == if page_at(
            before[i],
            document_id,
            number,
        ) {
            GeneralDocumentPageView { updated_at: after[i].updated_at, ..change(before[i]) }
        } else {
            before[i]
        }
}

/// A page as it is created.
pub open spec fn new_page(
    id: i64,
    document_id: i64,
    number: i64,
    time: Seq<char>,
) -> GeneralDocumentPageView {
    GeneralDocumentPageView {
        id,
        document_id,
        page_number: number,
        status: "pending"@,
        ocr_text: None,
        edited_text: None,
        error: None,
        page_image_path: None,
        ocr_raw_json: None,
        page_width: None,
        page_height: None,
        layout_warning: None,
        updated_at: time,
    }
}

/// The block that a statement inserts, with the number and the times that the
/// database gives it.
pub open spec fn inserted_block(
    args: Seq<ArgView>,
    id: i64,
    created_at: Seq<char>,
    updated_at: Seq<char>,
) -> GeneralDocumentBlockView {
    GeneralDocumentBlockView {
        id,
        document_id: arg_number(args[0]),
        page_number: arg_number(args[1]),
        block_index: arg_number(args[2]),
        block_type: arg_text(args[3]),
        text: arg_option(args[4]),
        bbox_json: arg_option(args[5]),
        style_json: arg_option(args[6]),
        image_path: arg_option(args[7]),
        embedding: arg_option(args[8]),
        created_at,
        updated_at,
    }
}

/// Whether a block is not on a page.
pub open spec fn off_page(document_id: i64, number: i64) -> spec_fn(GeneralDocumentBlockView) -> bool {
    |block: GeneralDocumentBlockView|
        !(block.document_id == document_id && block.page_number == number)
}

// ---------------------------------------------------------------------------
// Statements
// ---------------------------------------------------------------------------

/// Whether a statement is about the general documents themselves.
pub open spec fn about_documents(sql: Seq<char>) -> bool {
    ||| sql == CREATE_GENERAL_DOCUMENT@
    ||| sql == SET_FILE_PATH@
    ||| sql == SET_STATUS@
    ||| sql == SET_PAGE_COUNT@
}

/// Whether a statement is about pages.
pub open spec fn about_pages(sql: Seq<char>) -> bool {
    ||| sql == CREATE_PAGE@
    ||| sql == ENSURE_PAGE@
    ||| sql == SET_PAGE_ASSET@
    ||| sql == SET_PAGE_OCR@
    ||| sql == SET_EDITED_TEXT@
}

/// Whether a statement is about blocks.
pub open spec fn about_blocks(sql: Seq<char>) -> bool {
    ||| sql == DELETE_PAGE_BLOCKS@
    ||| sql == CREATE_BLOCK@
    ||| sql == SET_BLOCK_TEXT@
}

/// Whether a statement that was carried out has changed the general documents as
/// it should.
pub open spec fn general_documents_step(
    before: Seq<GeneralDocumentSummaryView>,
    sql: Seq<char>,
    args: Seq<ArgView>,
    last_id: i64,
    after: Seq<GeneralDocumentSummaryView>,
) -> bool {
    &&& sql == CREATE_GENERAL_DOCUMENT@ ==> {
        &&& after.len() == before.len() + 1
        &&& after.drop_last() == before
        &&& after.last() == (GeneralDocumentSummaryView {
            id: last_id,
            filename: arg_text(args[0]),
            file_path: arg_text(args[1]),
            page_count: arg_number(args[2]),
            status: "pending"@,
            created_at: after.last().created_at,
            updated_at: after.last().updated_at,
        })
        &&& forall|i: int| 0 <= i < before.len() ==> (#[trigger] before[i]).id < last_id
    }
    &&& sql == SET_FILE_PATH@ ==> documents_changed(
        before,
        after,
        arg_number(args[1]),
        |row: GeneralDocumentSummaryView|
            GeneralDocumentSummaryView { file_path: arg_text(args[0]), ..row },
    )
    &&& sql == SET_STATUS@ ==> documents_changed(
        before,
        after,
        arg_number(args[1]),
        |row: GeneralDocumentSummaryView|
            GeneralDocumentSummaryView { status: arg_text(args[0]), ..row },
    )
    &&& sql == SET_PAGE_COUNT@ ==> documents_changed(
        before,
        after,
        arg_number(args[1]),
        |row: GeneralDocumentSummaryView|
            GeneralDocumentSummaryView { page_count: arg_number(args[0]), ..row },
    )
    &&& about_pages(sql) || about_blocks(sql) || sql == CREATE_REVISION@ ==> after == before
}

/// Whether a statement that was carried out has changed the pages as it should.
pub open spec fn pages_step(
    before: Seq<GeneralDocumentPageView>,
    sql: Seq<char>,
    args: Seq<ArgView>,
    last_id: i64,
    after: Seq<GeneralDocumentPageView>,
) -> bool {
    &&& sql == CREATE_PAGE@ ==> {
        &&& after.len() == before.len() + 1
        &&& after.drop_last() == before
        &&& after.last() == new_page(
            last_id,
            arg_number(args[0]),
            arg_number(args[1]),
            after.last().updated_at,
        )
    }
    &&& sql == ENSURE_PAGE@ ==> {
        ||| after == before && exists|i: int|
            0 <= i < before.len() && page_at(
                #[trigger] before[i],
                arg_number(args[0]),
                arg_number(args[1]),
            )
        ||| {
            &&& after.len() == before.len() + 1
            &&& after.drop_last() == before
            &&& after.last() == new_page(
                last_id,
                arg_number(args[0]),
                arg_number(args[1]),
                after.last().updated_at,
            )
        }
    }
    &&& sql == SET_PAGE_ASSET@ ==> pages_changed(
        before,
        after,
        arg_number(args[4]),
        arg_number(args[5]),
        |page: GeneralDocumentPageView|
            GeneralDocumentPageView {
                page_image_path: arg_option(args[0]),
                page_width: arg_opt_number(args[1]),
                page_height: arg_opt_number(args[2]),
                layout_warning: arg_option(args[3]),
                ..page
            },
    )
    &&& sql == SET_PAGE_OCR@ ==> pages_changed(
        before,
        after,
        arg_number(args[4]),
        arg_number(args[5]),
        |page: GeneralDocumentPageView|
            GeneralDocumentPageView {
                status: arg_text(args[0]),
                ocr_text: arg_option(args[1]),
                ocr_raw_json: arg_option(args[2]),
                error: arg_option(args[3]),
                ..page
            },
    )
    &&& sql == SET_EDITED_TEXT@ ==> pages_changed(
        before,
        after,
        arg_number(args[1]),
        arg_number(args[2]),
        |page: GeneralDocumentPageView|
            GeneralDocumentPageView { edited_text: Some(arg_text(args[0])), ..page },
    )
    &&& about_documents(sql) || about_blocks(sql) || sql == CREATE_REVISION@ ==> after == before
}

/// Whether a statement that was carried out has changed the blocks as it should.
pub open spec fn blocks_step(
    before: Seq<GeneralDocumentBlockView>,
    sql: Seq<char>,
    args: Seq<ArgView>,
    last_id: i64,
    after: Seq<GeneralDocumentBlockView>,
) -> bool {
    &&& sql == DELETE_PAGE_BLOCKS@ ==> after == where_true(
        before,
        off_page(arg_number(args[0]), arg_number(args[1])),
    )
    &&& sql == CREATE_BLOCK@ ==> {
        &&& after.len() == before.len() + 1
        &&& after.drop_last() == before
        &&& after.last() == inserted_block(
            args,
            last_id,
            after.last().created_at,
            after.last().updated_at,
        )
    }
    &&& sql == SET_BLOCK_TEXT@ ==> {
        &&& after.len() == before.len()
        &&& forall|i: int|
            0 <= i < before.len() ==> #[trigger] after[i] == if before[i].document_id
                == arg_number(args[1]) && before[i].page_number == arg_number(args[2])
                && before[i].block_index == arg_number(args[3]) {
                GeneralDocumentBlockView {
                    text: Some(arg_text(args[0])),
                    updated_at: after[i].updated_at,
                    ..before[i]
                }
            } else {
                before[i]
            }
    }
    &&& about_documents(sql) || about_pages(sql) || sql == CREATE_REVISION@ ==> after == before
}

/// Whether a statement that was carried out has changed the rows of the general
/// documents as it should. With a document go its pages and blocks.
pub open spec fn general_step(
    before: GeneralRows,
    sql: Seq<char>,
    args: Seq<ArgView>,
    last_id: i64,
    after: GeneralRows,
) -> bool {
    &&& general_documents_step(before.documents, sql, args, last_id, after.documents)
    &&& pages_step(before.pages, sql, args, last_id, after.pages)
    &&& blocks_step(before.blocks, sql, args, last_id, after.blocks)
    &&& sql == DELETE_GENERAL_DOCUMENT@ ==> {
        &&& after.documents == where_true(
            before.documents,
            |row: GeneralDocumentSummaryView| row.id != arg_number(args[0]),
        )
        &&& after.pages == where_true(
            before.pages,
            |page: GeneralDocumentPageView| page.document_id != arg_number(args[0]),
        )
        &&& after.blocks == where_true(
            before.blocks,
            |block: GeneralDocumentBlockView| block.document_id != arg_number(args[0]),
        )
    }
}

// ---------------------------------------------------------------------------
// Answers
// ---------------------------------------------------------------------------

/// How many pages of a document a condition holds of.
pub open spec fn count_pages_where(
    pages: Seq<GeneralDocumentPageView>,
    document_id: i64,
    condition: spec_fn(GeneralDocumentPageView) -> bool,
) -> nat {
    where_true(
        pages,
        |page: GeneralDocumentPageView| page.document_id == document_id && condition(page),
    ).len()
}

/// How many pages a document has.
pub open spec fn all_pages(pages: Seq<GeneralDocumentPageView>, document_id: i64) -> nat {
    count_pages_where(pages, document_id, |page: GeneralDocumentPageView| true)
}

/// How many pages of a document have this status.
pub open spec fn pages_with_status(
    pages: Seq<GeneralDocumentPageView>,
    document_id: i64,
    status: Seq<char>,
) -> nat {
    count_pages_where(
        pages,
        document_id,
        |page: GeneralDocumentPageView| page.status == status,
    )
}

/// Whether an answer is this number.
pub open spec fn gives_number(given: Seq<Seq<CellView>>, n: nat) -> bool {
    &&& given.len() == 1
    &&& given[0].len() == 1
    &&& given[0][0] matches CellView::Integer(k) && k == n
}

/// The cells of a general document in an answer.
pub open spec fn general_document_cells(row: GeneralDocumentSummaryView) -> Seq<CellView> {
    seq![
        CellView::Integer(row.id),
        CellView::Text(row.filename),
        CellView::Text(row.file_path),
        CellView::Integer(row.page_count),
        CellView::Text(row.status),
        CellView::Text(row.created_at),
        CellView::Text(row.updated_at),
    ]
}

/// The general documents with a number.
pub open spec fn general_numbered(rows: Seq<GeneralDocumentSummaryView>, id: i64) -> Seq<
    GeneralDocumentSummaryView,
> {
    where_true(rows, |row: GeneralDocumentSummaryView| row.id == id)
}

/// The cell that holds a number, or nothing.
pub open spec fn number_or_null(n: Option<i64>) -> CellView {
    match n {
        Some(k) => CellView::Integer(k),
        None => CellView::Null,
    }
}

/// The cells of a page in an answer.
pub open spec fn page_cells(page: GeneralDocumentPageView) -> Seq<CellView> {
    seq![
        CellView::Integer(page.id),
        CellView::Integer(page.document_id),
        CellView::Integer(page.page_number),
        CellView::Text(page.status),
        cell_or_null(page.ocr_text),
        cell_or_null(page.edited_text),
        cell_or_null(page.error),
        cell_or_null(page.page_image_path),
        cell_or_null(page.ocr_raw_json),
        number_or_null(page.page_width),
        number_or_null(page.page_height),
        cell_or_null(page.layout_warning),
        CellView::Text(page.updated_at),
    ]
}

/// The cells of a block in an answer.
pub open spec fn block_cells(block: GeneralDocumentBlockView) -> Seq<CellView> {
    seq![
        CellView::Integer(block.id),
        CellView::Integer(block.document_id),
        CellView::Integer(block.page_number),
        CellView::Integer(block.block_index),
        CellView::Text(block.block_type),
        cell_or_null(block.text),
        cell_or_null(block.bbox_json),
        cell_or_null(block.style_json),
        cell_or_null(block.image_path),
        cell_or_null(block.embedding),
        CellView::Text(block.created_at),
        CellView::Text(block.updated_at),
    ]
}

/// The pages with this place.
pub open spec fn pages_at(pages: Seq<GeneralDocumentPageView>, document_id: i64, number: i64) -> Seq<
    GeneralDocumentPageView,
> {
    where_true(pages, |page: GeneralDocumentPageView| page_at(page, document_id, number))
}

/// Whether a page belongs to a document.
pub open spec fn page_of(document_id: i64) -> spec_fn(GeneralDocumentPageView) -> bool {
    |page: GeneralDocumentPageView| page.document_id == document_id
}

/// Whether a block belongs to a document, and to a page of it, if one is named.
pub open spec fn block_of(document_id: i64, number: Option<i64>) -> spec_fn(
    GeneralDocumentBlockView,
) -> bool {
    |block: GeneralDocumentBlockView|
        {
            &&& block.document_id == document_id
            &&& number matches Some(n) ==> block.page_number == n
        }
}

/// The order of pages: by their numbers.
pub open spec fn page_order() -> spec_fn(GeneralDocumentPageView, GeneralDocumentPageView) -> bool {
    |a: GeneralDocumentPageView, b: GeneralDocumentPageView| a.page_number < b.page_number
}

/// The order of blocks: by the page and the place on it.
pub open spec fn block_order() -> spec_fn(
    GeneralDocumentBlockView,
    GeneralDocumentBlockView,
) -> bool {
    |a: GeneralDocumentBlockView, b: GeneralDocumentBlockView|
        a.page_number < b.page_number || a.page_number == b.page_number && a.block_index
            < b.block_index
}

/// Whether an answer lists the pages of a document in their order.
pub open spec fn lists_pages(
    pages: Seq<GeneralDocumentPageView>,
    document_id: i64,
    given: Seq<Seq<CellView>>,
) -> bool {
    exists|list: Seq<GeneralDocumentPageView>| #[trigger]
        arranged(list, where_true(pages, page_of(document_id)), page_order()) && given
            == list.map_values(|page: GeneralDocumentPageView| page_cells(page))
}

/// Whether an answer lists the blocks of a document, or of a page of it, in their
/// order.
pub open spec fn lists_blocks(
    blocks: Seq<GeneralDocumentBlockView>,
    document_id: i64,
    number: Option<i64>,
    given: Seq<Seq<CellView>>,
) -> bool {
    exists|list: Seq<GeneralDocumentBlockView>| #[trigger]
        arranged(list, where_true(blocks, block_of(document_id, number)), block_order()) && given
            == list.map_values(|block: GeneralDocumentBlockView| block_cells(block))
}

/// Whether an answer about general documents is right.
pub open spec fn general_answer(
    rows: GeneralRows,
    sql: Seq<char>,
    args: Seq<ArgView>,
    given: Seq<Seq<CellView>>,
) -> bool {
    &&& sql == GET_GENERAL_DOCUMENT@ ==> given == general_numbered(
        rows.documents,
        arg_number(args[0]),
    ).map_values(|row: GeneralDocumentSummaryView| general_document_cells(row))
    &&& sql == GENERAL_DOCUMENTS@ ==> given == newest_first(
        rows.documents,
        |row: GeneralDocumentSummaryView| true,
    ).map_values(|row: GeneralDocumentSummaryView| general_document_cells(row))
    &&& sql == GET_PAGE@ ==> given == pages_at(
        rows.pages,
        arg_number(args[0]),
        arg_number(args[1]),
    ).map_values(|page: GeneralDocumentPageView| page_cells(page))
    &&& sql == PAGES@ ==> lists_pages(rows.pages, arg_number(args[0]), given)
    &&& sql == BLOCKS@ ==> lists_blocks(rows.blocks, arg_number(args[0]), None, given)
    &&& sql == BLOCKS_OF_PAGE@ ==> lists_blocks(
        rows.blocks,
        arg_number(args[0]),
        Some(arg_number(args[1])),
        given,
    )
    &&& sql == COUNT_PAGES@ ==> gives_number(given, all_pages(rows.pages, arg_number(args[0])))
    &&& sql == COUNT_SUCCEEDED@ ==> gives_number(
        given,
        pages_with_status(rows.pages, arg_number(args[0]), "succeeded"@),
    )
    &&& sql == COUNT_FAILED@ ==> gives_number(
        given,
        pages_with_status(rows.pages, arg_number(args[0]), "failed"@),
    )
}

// ---------------------------------------------------------------------------
// Laws of the status
// ---------------------------------------------------------------------------

/// The only row that a condition holds of, in rows that are changed one by one
/// without changing that.
proof fn lemma_single_row<R>(before: Seq<R>, after: Seq<R>, condition: spec_fn(R) -> bool, row: R) -> (
    i: int)
    requires
        before.len() == after.len(),
        forall|k: int|
            0 <= k < before.len() ==> condition(#[trigger] after[k]) == condition(before[k]),
        where_true(before, condition) == seq![row],
    ensures
        0 <= i < before.len(),
        before[i] == row,
        condition(row),
        where_true(after, condition) == seq![after[i]],
    decreases before.len(),
{
    assert(where_true(before, condition).len() == 1);
    let n = before.len() - 1;
    let b = before.drop_last();
    let a = after.drop_last();
    let kept = where_true(b, condition);
    assert(condition(after[n]) == condition(before[n]));
    assert forall|k: int| 0 <= k < b.len() implies condition(#[trigger] a[k]) == condition(
        b[k],
    ) by {
        assert(a[k] == after[k]);
    }
    if condition(before.last()) {
        assert(kept.push(before.last()).len() == 1);
        assert(kept.len() == 0);
        assert(before.last() == seq![row][0]) by {
            assert(kept.push(before.last())[0] == before.last());
        }
        lemma_no_row(b, a, condition);
        assert(where_true(after, condition) =~= seq![after[n]]);
        n
    } else {
        let i = lemma_single_row(b, a, condition, row);
        assert(after[i] == a[i]);
        i
    }
}

/// Where a condition holds of no row, it holds of none after the rows are
/// changed one by one without changing that.
proof fn lemma_no_row<R>(before: Seq<R>, after: Seq<R>, condition: spec_fn(R) -> bool)
    requires
        before.len() == after.len(),
        forall|k: int|
            0 <= k < before.len() ==> condition(#[trigger] after[k]) == condition(before[k]),
        where_true(before, condition).len() == 0,
    ensures
        where_true(after, condition) == Seq::<R>::empty(),
    decreases before.len(),
{
    if before.len() > 0 {
        let n = before.len() - 1;
        let b = before.drop_last();
        let a = after.drop_last();
        assert(condition(after[n]) == condition(before[n]));
        assert forall|k: int| 0 <= k < b.len() implies condition(#[trigger] a[k]) == condition(
            b[k],
        ) by {
            assert(a[k] == after[k]);
        }
        lemma_no_row(b, a, condition);
    }
}

/// There is one general document with its number, and it is this.
pub open spec fn has_general(rows: GeneralRows, row: GeneralDocumentSummaryView) -> bool {
    general_numbered(rows.documents, row.id) == seq![row]
}

/// The status that follows from the pages of a document.
pub open spec fn status_from_pages(pages: Seq<GeneralDocumentPageView>, id: i64) -> Seq<char> {
    status_text(
        all_pages(pages, id) as i64,
        pages_with_status(pages, id, "succeeded"@) as i64,
        pages_with_status(pages, id, "failed"@) as i64,
    )
}

/// A number that was asked for.
proof fn lemma_counted(given: Seq<Seq<CellView>>, n: nat)
    requires
        gives_number(given, n),
    ensures
        counted(Ok(given)) == Ok::<i64, Fault>(n as i64),
{
    let cells = given[0];
    let shape = <i64 as Record>::shape();
    assert(column_fits(cells, shape, 0));
    assert(row_fault_from(cells, shape, 1) is None);
    assert(row_fault_from(cells, shape, 0) is None);
}

/// Once the status of a document has been set, it is the one that follows from
/// the states of its pages; nothing else of the document, and nothing of its
/// pages and blocks, has changed.
pub proof fn law_status_follows_from_pages(
    states: Seq<Tables>,
    before: Seq<Event>,
    after: Seq<Event>,
    row: GeneralDocumentSummaryView,
) -> (now: GeneralDocumentSummaryView)
    requires
        ran(states, after),
        status_updated(before, after, row.id, Ok(())),
        has_general(after_events(states, before.len()).general, row),
    ensures
        ({
            let rows = after_events(states, before.len()).general;
            let end = after_events(states, after.len()).general;
            &&& end.pages == rows.pages
            &&& end.blocks == rows.blocks
            &&& has_general(end, now)
            &&& now.status == status_from_pages(rows.pages, row.id)
            &&& now == GeneralDocumentSummaryView {
                status: now.status,
                updated_at: now.updated_at,
                ..row
            }
        }),
{
    let n = before.len() as int;
    let id = row.id;
    let s = states[n];
    let pages = s.rows.general.pages;
    assert(count_at(after, n, 0) == count_at(after, n, 0));
    assert(count_at(after, n, 1) == count_at(after, n, 1));
    assert(count_at(after, n, 2) == count_at(after, n, 2));
    assert(after.take(n + 1).last() == after[n]);
    assert(after.take(n + 2).last() == after[n + 1]);
    assert(after.take(n + 3).last() == after[n + 2]);
    assert(after.last() == after[n + 3]);
    assert(obeys(states[n], after[n], states[n + 1]));
    assert(obeys(states[n + 1], after[n + 1], states[n + 2]));
    assert(obeys(states[n + 2], after[n + 2], states[n + 3]));
    assert(obeys(states[n + 3], after[n + 3], states[n + 4]));
    assert(count_sql(0) == COUNT_PAGES@);
    assert(count_sql(1) == COUNT_SUCCEEDED@);
    assert(count_sql(2) == COUNT_FAILED@);
    assert(states[n + 3] == s);
    let a0 = answer(after.take(n + 1));
    let a1 = answer(after.take(n + 2));
    let a2 = answer(after.take(n + 3));
    assert(a0 is Ok && a1 is Ok && a2 is Ok);
    lemma_counted(a0->Ok_0, all_pages(pages, id));
    lemma_counted(a1->Ok_0, pages_with_status(pages, id, "succeeded"@));
    lemma_counted(a2->Ok_0, pages_with_status(pages, id, "failed"@));
    let old_rows = s.rows.general.documents;
    let new_rows = states[n + 4].rows.general.documents;
    let condition = |r: GeneralDocumentSummaryView| r.id == id;
    assert(changed_rows(after) is Ok);
    let i = lemma_single_row(old_rows, new_rows, condition, row);
    new_rows[i]
}

// ---------------------------------------------------------------------------
// Laws of pages
// ---------------------------------------------------------------------------

/// There is one page with its place, and it is this.
pub open spec fn has_page(rows: GeneralRows, page: GeneralDocumentPageView) -> bool {
    pages_at(rows.pages, page.document_id, page.page_number) == seq![page]
}

/// A statement that changes a page and the update of the status after it leave
/// the page as the statement made it.
proof fn lemma_page_after_status(
    states: Seq<Tables>,
    before: Seq<Event>,
    after: Seq<Event>,
    sql: Seq<char>,
    args: Seq<ArgView>,
    row: GeneralDocumentSummaryView,
    page: GeneralDocumentPageView,
    change: spec_fn(GeneralDocumentPageView) -> GeneralDocumentPageView,
) -> (now: GeneralDocumentPageView)
    requires
        ran(states, after),
        told_with_status(before, after, sql, args, row.id, Ok(())),
        sql == SET_PAGE_OCR@ || sql == SET_EDITED_TEXT@,
        has_general(after_events(states, before.len()).general, row),
        has_page(after_events(states, before.len()).general, page),
        pages_changed(
            states[before.len() as int].rows.general.pages,
            states[before.len() as int + 1].rows.general.pages,
            page.document_id,
            page.page_number,
            change,
        ),
        forall|p: GeneralDocumentPageView|
            (#[trigger] change(p)).document_id == p.document_id && change(p).page_number
                == p.page_number,
    ensures
        has_page(after_events(states, after.len()).general, now),
        now == (GeneralDocumentPageView { updated_at: now.updated_at, ..change(page) }),
{
    let n = before.len() as int;
    let first = after.take(n + 1);
    assert(first.last() == after[n]);
    assert(obeys(states[n], after[n], states[n + 1]));
    let old_pages = states[n].rows.general.pages;
    let new_pages = states[n + 1].rows.general.pages;
    let condition = |p: GeneralDocumentPageView|
        page_at(p, page.document_id, page.page_number);
    assert forall|k: int| 0 <= k < old_pages.len() implies condition(#[trigger] new_pages[k])
        == condition(old_pages[k]) by {
        assert(change(old_pages[k]).document_id == old_pages[k].document_id);
    }
    let i = lemma_single_row(old_pages, new_pages, condition, page);
    let now = new_pages[i];
    assert(now == (GeneralDocumentPageView { updated_at: now.updated_at, ..change(page) }));
    assert(change(page).document_id == page.document_id);
    assert(states[n + 1].rows.general.documents == states[n].rows.general.documents);
    assert(after_events(states, first.len()).general == states[n + 1].rows.general);
    let end = law_status_follows_from_pages(states, first, after, row);
    now
}

/// Once an edited text has been kept, it is the edited text of its page, and the
/// rest of the page is as it was.
pub proof fn law_revision_is_kept(
    states: Seq<Tables>,
    before: Seq<Event>,
    after: Seq<Event>,
    row: GeneralDocumentSummaryView,
    page: GeneralDocumentPageView,
    instruction: Seq<char>,
    text: Seq<char>,
) -> (now: GeneralDocumentPageView)
    requires
        ran(states, after),
        page.document_id == row.id,
        revision_saved(before, after, row.id, page.page_number, instruction, text, Ok(())),
        has_general(after_events(states, before.len()).general, row),
        has_page(after_events(states, before.len()).general, page),
    ensures
        has_page(after_events(states, after.len()).general, now),
        now == (GeneralDocumentPageView {
            edited_text: Some(text),
            updated_at: now.updated_at,
            ..page
        }),
{
    let n = before.len() as int;
    let first = after.take(n + 1);
    assert(first.last() == after[n]);
    assert(obeys(states[n], after[n], states[n + 1]));
    assert(states[n + 1].rows.general.documents == states[n].rows.general.documents);
    assert(states[n + 1].rows.general.pages == states[n].rows.general.pages);
    let second = after.take(n + 2);
    let args = seq![
        ArgView::Text(text),
        ArgView::Integer(row.id),
        ArgView::Integer(page.page_number),
    ];
    assert(after.take(first.len() as int + 1).last() == after[n + 1]);
    assert(obeys(states[n + 1], after[n + 1], states[n + 2]));
    let change = |p: GeneralDocumentPageView|
        GeneralDocumentPageView { edited_text: Some(arg_text(args[0])), ..p };
    lemma_page_after_status(states, first, after, SET_EDITED_TEXT@, args, row, page, change)
}

/// Once it has been kept what came of reading a page, the page says so, and what
/// was edited before is still there.
pub proof fn law_reading_is_kept(
    states: Seq<Tables>,
    before: Seq<Event>,
    after: Seq<Event>,
    row: GeneralDocumentSummaryView,
    page: GeneralDocumentPageView,
    status: Seq<char>,
    text: Option<Seq<char>>,
    raw_json: Option<JsonView>,
    error: Option<Seq<char>>,
) -> (now: GeneralDocumentPageView)
    requires
        ran(states, after),
        page.document_id == row.id,
        page_marked(before, after, row.id, page.page_number, status, text, raw_json, error, Ok(())),
        has_general(after_events(states, before.len()).general, row),
        has_page(after_events(states, before.len()).general, page),
    ensures
        has_page(after_events(states, after.len()).general, now),
        now == (GeneralDocumentPageView {
            status,
            ocr_text: text,
            ocr_raw_json: match raw_json {
                Some(v) => Some(json_text(v)),
                None => None,
            },
            error,
            updated_at: now.updated_at,
            ..page
        }),
{
    let n = before.len() as int;
    let first = after.take(n + 1);
    let args = page_ocr_args(row.id, page.page_number, status, text, raw_json, error);
    assert(first.last() == after[n]);
    assert(obeys(states[n], after[n], states[n + 1]));
    let change = |p: GeneralDocumentPageView|
        GeneralDocumentPageView {
            status: arg_text(args[0]),
            ocr_text: arg_option(args[1]),
            ocr_raw_json: arg_option(args[2]),
            error: arg_option(args[3]),
            ..p
        };
    lemma_page_after_status(states, before, after, SET_PAGE_OCR@, args, row, page, change)
}

// ---------------------------------------------------------------------------
// Laws of blocks
// ---------------------------------------------------------------------------

/// Whether blocks are those that statements with these arguments insert.
pub open spec fn blocks_match(blocks: Seq<GeneralDocumentBlockView>, args: Seq<Seq<ArgView>>) -> bool {
    &&& blocks.len() == args.len()
    &&& forall|i: int|
        0 <= i < blocks.len() ==> #[trigger] blocks[i] == inserted_block(
            args[i],
            blocks[i].id,
            blocks[i].created_at,
            blocks[i].updated_at,
        )
}

/// The blocks after the old ones of a page were deleted and the first `count` of
/// the new ones were inserted.
proof fn lemma_blocks_so_far(
    states: Seq<Tables>,
    history: Seq<Event>,
    n: int,
    id: i64,
    page: i64,
    args: Seq<Seq<ArgView>>,
    count: int,
)
    requires
        ran(states, history),
        0 <= n,
        0 <= count <= args.len(),
        block_prefix(history, n, id, page, args, count),
    ensures
        ({
            let kept = where_true(states[n].rows.general.blocks, off_page(id, page));
            let now = states[n + 2 + count].rows.general.blocks;
            &&& now.len() == kept.len() + count
            &&& now.take(kept.len() as int) == kept
            &&& blocks_match(now.skip(kept.len() as int), args.take(count))
            &&& states[n + 2 + count].saved == Some(states[n].rows)
        }),
    decreases count,
{
    let kept = where_true(states[n].rows.general.blocks, off_page(id, page));
    assert(obeys(states[n], history[n], states[n + 1]));
    assert(obeys(states[n + 1], history[n + 1], states[n + 2]));
    if count == 0 {
        let now = states[n + 2].rows.general.blocks;
        assert(now == kept);
        assert(now.take(kept.len() as int) =~= kept);
    } else {
        assert forall|i: int| 0 <= i < count - 1 implies keeps_block(
            #[trigger] history[n + 2 + i],
            args[i],
        ) && carried_out(history[n + 2 + i]) by {}
        lemma_blocks_so_far(states, history, n, id, page, args, count - 1);
        let k = n + 2 + (count - 1);
        assert(keeps_block(history[k], args[count - 1]));
        assert(obeys(states[k], history[k], states[k + 1]));
        let was = states[k].rows.general.blocks;
        let now = states[k + 1].rows.general.blocks;
        assert(now.drop_last() == was);
        assert(now.take(kept.len() as int) =~= was.take(kept.len() as int));
        let added = now.skip(kept.len() as int);
        assert forall|i: int| 0 <= i < added.len() implies #[trigger] added[i] == inserted_block(
            args.take(count)[i],
            added[i].id,
            added[i].created_at,
            added[i].updated_at,
        ) by {
            if i < count - 1 {
                assert(added[i] == was.skip(kept.len() as int)[i]);
                assert(args.take(count - 1)[i] == args[i]);
            } else {
                assert(added[i] == now.last());
            }
        }
    }
}

/// The blocks of a page are replaced all at once: once that has succeeded, the
/// blocks of the page are the new ones, and those of other pages are as before.
pub proof fn law_blocks_are_replaced(
    states: Seq<Tables>,
    before: Seq<Event>,
    after: Seq<Event>,
    id: i64,
    page: i64,
    args: Seq<Seq<ArgView>>,
)
    requires
        ran(states, after),
        blocks_replaced(before, after, id, page, args, Ok(())),
    ensures
        ({
            let kept = where_true(
                after_events(states, before.len()).general.blocks,
                off_page(id, page),
            );
            let now = after_events(states, after.len()).general.blocks;
            &&& now.len() == kept.len() + args.len()
            &&& now.take(kept.len() as int) == kept
            &&& blocks_match(now.skip(kept.len() as int), args)
        }),
{
    let n = before.len() as int;
    lemma_blocks_so_far(states, after, n, id, page, args, args.len() as int);
    let k = n + 2 + args.len();
    assert(after.last() == after[k]);
    assert(obeys(states[k], after[k], states[k + 1]));
    assert(args.take(args.len() as int) =~= args);
}

/// The blocks of a page are replaced or nothing is: where that has failed, and
/// the transaction could be rolled back if one was begun, all is as before.
pub proof fn law_failed_replacement_changes_nothing(
    states: Seq<Tables>,
    before: Seq<Event>,
    after: Seq<Event>,
    id: i64,
    page: i64,
    args: Seq<Seq<ArgView>>,
    fault: Fault,
)
    requires
        ran(states, after),
        blocks_replaced(before, after, id, page, args, Err(fault)),
        after.len() > before.len() + 1 ==> after.last() == (Event::Batch {
            sql: ROLLBACK@,
            done: Ok(()),
        }),
    ensures
        after_events(states, after.len()) == after_events(states, before.len()),
{
    let n = before.len() as int;
    let told = after.len() - n;
    assert(obeys(states[n], after[n], states[n + 1]));
    if told == 1 {
        assert(after.last() == after[n]);
    } else {
        let at = told - 3;
        let k = n + 1 + at;
        assert(after.last() == after[k + 1]);
        if at > 0 {
            lemma_blocks_so_far(states, after, n, id, page, args, at - 1);
        }
        assert(states[k].saved == Some(states[n].rows));
        assert(obeys(states[k], after[k], states[k + 1]));
        assert(obeys(states[k + 1], after[k + 1], states[k + 2]));
    }
}

// ---------------------------------------------------------------------------
// Laws of deletion
// ---------------------------------------------------------------------------

/// Nothing is left of a general document that was deleted: neither the document
/// nor any of its pages or blocks.
pub proof fn law_deleted_general_document_is_gone(
    states: Seq<Tables>,
    before: Seq<Event>,
    after: Seq<Event>,
    id: i64,
)
    requires
        ran(states, after),
        executed(before, after, DELETE_GENERAL_DOCUMENT@, seq![ArgView::Integer(id)]),
        changed_rows(after) is Ok,
    ensures
        ({
            let rows = after_events(states, after.len()).general;
            &&& forall|i: int|
                0 <= i < rows.documents.len() ==> (#[trigger] rows.documents[i]).id != id
            &&& forall|i: int|
                0 <= i < rows.pages.len() ==> (#[trigger] rows.pages[i]).document_id != id
            &&& forall|i: int|
                0 <= i < rows.blocks.len() ==> (#[trigger] rows.blocks[i]).document_id != id
        }),
{
    let n = before.len() as int;
    assert(after[n] == after.last());
    assert(obeys(states[n], after[n], states[n + 1]));
    let was = states[n].rows.general;
    lemma_where_true_holds(was.documents, |row: GeneralDocumentSummaryView| row.id != id);
    lemma_where_true_holds(was.pages, |p: GeneralDocumentPageView| p.document_id != id);
    lemma_where_true_holds(was.blocks, |b: GeneralDocumentBlockView| b.document_id != id);
}

// ---------------------------------------------------------------------------
// Laws of creation
// ---------------------------------------------------------------------------

/// The pages of a document as they are created.
proof fn lemma_pages_so_far(
    states: Seq<Tables>,
    history: Seq<Event>,
    from: int,
    id: i64,
    count: int,
)
    requires
        ran(states, history),
        0 <= from,
        0 <= count <= i64::MAX,
        from + count <= history.len(),
        for_each_page(history, from, CREATE_PAGE@, id, count),
    ensures
        ({
            let was = states[from].rows.general;
            let now = states[from + count].rows.general;
            &&& now.documents == was.documents
            &&& now.pages.len() == was.pages.len() + count
            &&& forall|i: int|
                0 <= i < count ==> #[trigger] now.pages[was.pages.len() + i] == new_page(
                    now.pages[was.pages.len() + i].id,
                    id,
                    (i + 1) as i64,
                    now.pages[was.pages.len() + i].updated_at,
                )
        }),
    decreases count,
{
    if count > 0 {
        assert forall|i: int| 0 <= i < count - 1 implies page_statement(
            #[trigger] history[from + i],
            CREATE_PAGE@,
            id,
            i + 1,
        ) && carried_out(history[from + i]) by {}
        lemma_pages_so_far(states, history, from, id, count - 1);
        let k = from + (count - 1);
        assert(page_statement(history[k], CREATE_PAGE@, id, count));
        assert(obeys(states[k], history[k], states[k + 1]));
        let base = states[from].rows.general.pages.len();
        let was = states[k].rows.general.pages;
        let now = states[k + 1].rows.general.pages;
        assert(now.drop_last() == was);
        assert forall|i: int| 0 <= i < count implies #[trigger] now[base + i] == new_page(
            now[base + i].id,
            id,
            (i + 1) as i64,
            now[base + i].updated_at,
        ) by {
            if i < count - 1 {
                assert(now[base + i] == was[base + i]);
            } else {
                assert(now[base + i] == now.last());
            }
        }
    }
}

/// A general document that was kept has the number that it was given, waits to be
/// read, and has its pages, numbered from one, each of which waits to be read.
pub proof fn law_created_document_has_its_pages(
    states: Seq<Tables>,
    before: Seq<Event>,
    after: Seq<Event>,
    record: NewGeneralDocument<'_>,
    id: i64,
)
    requires
        ran(states, after),
        document_created(before, after, record, Ok(id)),
        record.page_count >= 0,
    ensures
        ({
            let was = after_events(states, before.len()).general;
            let now = after_events(states, after.len()).general;
            &&& now.documents.len() == was.documents.len() + 1
            &&& now.documents.last().id == id
            &&& now.documents.last().filename == record.filename@
            &&& now.documents.last().file_path == record.file_path@
            &&& now.documents.last().page_count == record.page_count
            &&& now.documents.last().status == "pending"@
            &&& now.pages.len() == was.pages.len() + record.page_count
            &&& forall|i: int|
                0 <= i < record.page_count ==> page_at(
                    #[trigger] now.pages[was.pages.len() + i],
                    id,
                    (i + 1) as i64,
                ) && now.pages[was.pages.len() + i].status == "pending"@
        }),
{
    let n = before.len() as int;
    let first = after.take(n + 2);
    assert(first.drop_last().last() == after[n]);
    assert(first.last() == after[n + 1]);
    assert(obeys(states[n], after[n], states[n + 1]));
    assert(obeys(states[n + 1], after[n + 1], states[n + 2]));
    lemma_pages_so_far(states, after, n + 2, id, record.page_count as int);
    assert(states[n + 2].rows.general.pages == states[n].rows.general.pages);
}

// ---------------------------------------------------------------------------
// Laws of reading back
// ---------------------------------------------------------------------------

/// What is read from the cells of a general document.
proof fn lemma_general_fits(row: GeneralDocumentSummaryView)
    ensures
        row_fault(general_document_cells(row), <GeneralDocumentSummary as Record>::shape()) is None,
        <GeneralDocumentSummary as Record>::of_row(general_document_cells(row)) == row,
{
    let cells = general_document_cells(row);
    let shape = <GeneralDocumentSummary as Record>::shape();
    assert(column_fits(cells, shape, 0));
    assert(column_fits(cells, shape, 1));
    assert(column_fits(cells, shape, 2));
    assert(column_fits(cells, shape, 3));
    assert(column_fits(cells, shape, 4));
    assert(column_fits(cells, shape, 5));
    assert(column_fits(cells, shape, 6));
    assert(row_fault_from(cells, shape, 7) is None);
    assert(row_fault_from(cells, shape, 6) is None);
    assert(row_fault_from(cells, shape, 5) is None);
    assert(row_fault_from(cells, shape, 4) is None);
    assert(row_fault_from(cells, shape, 3) is None);
    assert(row_fault_from(cells, shape, 2) is None);
    assert(row_fault_from(cells, shape, 1) is None);
    assert(row_fault_from(cells, shape, 0) is None);
}

/// What is read from the cells of a page.
proof fn lemma_page_fits(row: GeneralDocumentPageView)
    ensures
        row_fault(page_cells(row), <GeneralDocumentPage as Record>::shape()) is None,
        <GeneralDocumentPage as Record>::of_row(page_cells(row)) == row,
{
    let cells = page_cells(row);
    let shape = <GeneralDocumentPage as Record>::shape();
    assert(column_fits(cells, shape, 0));
    assert(column_fits(cells, shape, 1));
    assert(column_fits(cells, shape, 2));
    assert(column_fits(cells, shape, 3));
    assert(column_fits(cells, shape, 4));
    assert(column_fits(cells, shape, 5));
    assert(column_fits(cells, shape, 6));
    assert(column_fits(cells, shape, 7));
    assert(column_fits(cells, shape, 8));
    assert(column_fits(cells, shape, 9));
    assert(column_fits(cells, shape, 10));
    assert(column_fits(cells, shape, 11));
    assert(column_fits(cells, shape, 12));
    assert(row_fault_from(cells, shape, 13) is None);
    assert(row_fault_from(cells, shape, 12) is None);
    assert(row_fault_from(cells, shape, 11) is None);
    assert(row_fault_from(cells, shape, 10) is None);
    assert(row_fault_from(cells, shape, 9) is None);
    assert(row_fault_from(cells, shape, 8) is None);
    assert(row_fault_from(cells, shape, 7) is None);
    assert(row_fault_from(cells, shape, 6) is None);
    assert(row_fault_from(cells, shape, 5) is None);
    assert(row_fault_from(cells, shape, 4) is None);
    assert(row_fault_from(cells, shape, 3) is None);
    assert(row_fault_from(cells, shape, 2) is None);
    assert(row_fault_from(cells, shape, 1) is None);
    assert(row_fault_from(cells, shape, 0) is None);
}

/// What is read from the cells of a block.
proof fn lemma_block_fits(row: GeneralDocumentBlockView)
    ensures
        row_fault(block_cells(row), <GeneralDocumentBlock as Record>::shape()) is None,
        <GeneralDocumentBlock as Record>::of_row(block_cells(row)) == row,
{
    let cells = block_cells(row);
    let shape = <GeneralDocumentBlock as Record>::shape();
    assert(column_fits(cells, shape, 0));
    assert(column_fits(cells, shape, 1));
    assert(column_fits(cells, shape, 2));
    assert(column_fits(cells, shape, 3));
    assert(column_fits(cells, shape, 4));
    assert(column_fits(cells, shape, 5));
    assert(column_fits(cells, shape, 6));
    assert(column_fits(cells, shape, 7));
    assert(column_fits(cells, shape, 8));
    assert(column_fits(cells, shape, 9));
    assert(column_fits(cells, shape, 10));
    assert(column_fits(cells, shape, 11));
    assert(row_fault_from(cells, shape, 12) is None);
    assert(row_fault_from(cells, shape, 11) is None);
    assert(row_fault_from(cells, shape, 10) is None);
    assert(row_fault_from(cells, shape, 9) is None);
    assert(row_fault_from(cells, shape, 8) is None);
    assert(row_fault_from(cells, shape, 7) is None);
    assert(row_fault_from(cells, shape, 6) is None);
    assert(row_fault_from(cells, shape, 5) is None);
    assert(row_fault_from(cells, shape, 4) is None);
    assert(row_fault_from(cells, shape, 3) is None);
    assert(row_fault_from(cells, shape, 2) is None);
    assert(row_fault_from(cells, shape, 1) is None);
    assert(row_fault_from(cells, shape, 0) is None);
}

/// The only general document with its number is what is found under it.
pub proof fn law_general_document_is_read_back(
    states: Seq<Tables>,
    before: Seq<Event>,
    after: Seq<Event>,
    row: GeneralDocumentSummaryView,
)
    requires
        ran(states, after),
        has_general(after_events(states, before.len()).general, row),
        asked(before, after, GET_GENERAL_DOCUMENT@, seq![ArgView::Integer(row.id)]),
        answer(after) is Ok,
    ensures
        first_of::<GeneralDocumentSummary>(answer(after)) == Ok::<
            Option<GeneralDocumentSummaryView>,
            Fault,
        >(Some(row)),
{
    let n = before.len() as int;
    assert(after[n] == after.last());
    assert(obeys(states[n], after[n], states[n + 1]));
    assert(answer(after)->Ok_0[0] == general_document_cells(row));
    lemma_general_fits(row);
}

/// The general documents are listed as they are kept, the last first.
pub proof fn law_general_documents_are_listed(
    states: Seq<Tables>,
    before: Seq<Event>,
    after: Seq<Event>,
)
    requires
        ran(states, after),
        asked(before, after, GENERAL_DOCUMENTS@, Seq::empty()),
        answer(after) is Ok,
    ensures
        all_of::<GeneralDocumentSummary>(answer(after)) == Ok::<
            Seq<GeneralDocumentSummaryView>,
            Fault,
        >(after_events(states, before.len()).general.documents.reverse()),
{
    let n = before.len() as int;
    assert(after[n] == after.last());
    assert(obeys(states[n], after[n], states[n + 1]));
    let rows = states[n].rows.general.documents;
    let list = newest_first(rows, |row: GeneralDocumentSummaryView| true);
    let cells = |row: GeneralDocumentSummaryView| general_document_cells(row);
    let meaning = |row: GeneralDocumentSummaryView| row;
    lemma_where_true_all(rows, |row: GeneralDocumentSummaryView| true);
    assert forall|i: int| 0 <= i < list.len() implies row_fault(
        cells(#[trigger] list[i]),
        <GeneralDocumentSummary as Record>::shape(),
    ) is None && <GeneralDocumentSummary as Record>::of_row(cells(list[i])) == meaning(
        list[i],
    ) by {
        lemma_general_fits(list[i]);
    }
    lemma_all_read::<GeneralDocumentSummary, GeneralDocumentSummaryView>(list, cells, meaning);
    assert(list.map_values(meaning) =~= rows.reverse());
}

/// The only page with its place is what is found there.
pub proof fn law_page_is_read_back(
    states: Seq<Tables>,
    before: Seq<Event>,
    after: Seq<Event>,
    page: GeneralDocumentPageView,
)
    requires
        ran(states, after),
        has_page(after_events(states, before.len()).general, page),
        asked(
            before,
            after,
            GET_PAGE@,
            seq![ArgView::Integer(page.document_id), ArgView::Integer(page.page_number)],
        ),
        answer(after) is Ok,
    ensures
        first_of::<GeneralDocumentPage>(answer(after)) == Ok::<
            Option<GeneralDocumentPageView>,
            Fault,
        >(Some(page)),
{
    let n = before.len() as int;
    assert(after[n] == after.last());
    assert(obeys(states[n], after[n], states[n + 1]));
    assert(answer(after)->Ok_0[0] == page_cells(page));
    lemma_page_fits(page);
}

/// A page whose edited text was kept comes back with it, and with the rest as it
/// was.
pub proof fn law_revised_page_comes_back(
    states: Seq<Tables>,
    before: Seq<Event>,
    kept: Seq<Event>,
    after: Seq<Event>,
    row: GeneralDocumentSummaryView,
    page: GeneralDocumentPageView,
    instruction: Seq<char>,
    text: Seq<char>,
) -> (now: GeneralDocumentPageView)
    requires
        ran(states, after),
        page.document_id == row.id,
        revision_saved(before, kept, row.id, page.page_number, instruction, text, Ok(())),
        has_general(after_events(states, before.len()).general, row),
        has_page(after_events(states, before.len()).general, page),
        asked(
            kept,
            after,
            GET_PAGE@,
            seq![ArgView::Integer(page.document_id), ArgView::Integer(page.page_number)],
        ),
        answer(after) is Ok,
    ensures
        first_of::<GeneralDocumentPage>(answer(after)) == Ok::<
            Option<GeneralDocumentPageView>,
            Fault,
        >(Some(now)),
        now == (GeneralDocumentPageView {
            edited_text: Some(text),
            updated_at: now.updated_at,
            ..page
        }),
{
    let n = kept.len() as int;
    assert(after.take(n) =~= kept);
    lemma_ran_part(states, after, n);
    let held = states.take(n + 1);
    let now = law_revision_is_kept(held, before, kept, row, page, instruction, text);
    law_page_is_read_back(states, kept, after, now);
    now
}

/// A page of which it was kept what came of reading it comes back with that, and
/// with what was edited before.
pub proof fn law_read_page_comes_back(
    states: Seq<Tables>,
    before: Seq<Event>,
    kept: Seq<Event>,
    after: Seq<Event>,
    row: GeneralDocumentSummaryView,
    page: GeneralDocumentPageView,
    status: Seq<char>,
    text: Option<Seq<char>>,
    raw_json: Option<JsonView>,
    error: Option<Seq<char>>,
) -> (now: GeneralDocumentPageView)
    requires
        ran(states, after),
        page.document_id == row.id,
        page_marked(before, kept, row.id, page.page_number, status, text, raw_json, error, Ok(())),
        has_general(after_events(states, before.len()).general, row),
        has_page(after_events(states, before.len()).general, page),
        asked(
            kept,
            after,
            GET_PAGE@,
            seq![ArgView::Integer(page.document_id), ArgView::Integer(page.page_number)],
        ),
        answer(after) is Ok,
    ensures
        first_of::<GeneralDocumentPage>(answer(after)) == Ok::<
            Option<GeneralDocumentPageView>,
            Fault,
        >(Some(now)),
        now == (GeneralDocumentPageView {
            status,
            ocr_text: text,
            ocr_raw_json: match raw_json {
                Some(v) => Some(json_text(v)),
                None => None,
            },
            error,
            updated_at: now.updated_at,
            ..page
        }),
{
    let n = kept.len() as int;
    assert(after.take(n) =~= kept);
    lemma_ran_part(states, after, n);
    let held = states.take(n + 1);
    let now = law_reading_is_kept(
        held,
        before,
        kept,
        row,
        page,
        status,
        text,
        raw_json,
        error,
    );
    law_page_is_read_back(states, kept, after, now);
    now
}

/// The pages of a document are listed as they are kept, by their numbers.
pub proof fn law_pages_are_listed(
    states: Seq<Tables>,
    before: Seq<Event>,
    after: Seq<Event>,
    id: i64,
) -> (list: Seq<GeneralDocumentPageView>)
    requires
        ran(states, after),
        asked(before, after, PAGES@, seq![ArgView::Integer(id)]),
        answer(after) is Ok,
    ensures
        all_of::<GeneralDocumentPage>(answer(after)) == Ok::<
            Seq<GeneralDocumentPageView>,
            Fault,
        >(list),
        arranged(
            list,
            where_true(after_events(states, before.len()).general.pages, page_of(id)),
            page_order(),
        ),
{
    let n = before.len() as int;
    assert(after[n] == after.last());
    assert(obeys(states[n], after[n], states[n + 1]));
    let chosen = where_true(states[n].rows.general.pages, page_of(id));
    let given = answer(after)->Ok_0;
    assert(lists_pages(states[n].rows.general.pages, id, given));
    let list = choose|list: Seq<GeneralDocumentPageView>| #[trigger]
        arranged(list, chosen, page_order()) && given == list.map_values(
            |page: GeneralDocumentPageView| page_cells(page),
        );
    let cells = |page: GeneralDocumentPageView| page_cells(page);
    let meaning = |page: GeneralDocumentPageView| page;
    assert forall|i: int| 0 <= i < list.len() implies row_fault(
        cells(#[trigger] list[i]),
        <GeneralDocumentPage as Record>::shape(),
    ) is None && <GeneralDocumentPage as Record>::of_row(cells(list[i])) == meaning(list[i]) by {
        lemma_page_fits(list[i]);
    }
    lemma_all_read::<GeneralDocumentPage, GeneralDocumentPageView>(list, cells, meaning);
    assert(list.map_values(meaning) =~= list);
    list
}

/// The blocks of a document, or of one page of it, are listed as they are kept,
/// by their pages and their places on them.
pub proof fn law_blocks_are_listed(
    states: Seq<Tables>,
    before: Seq<Event>,
    after: Seq<Event>,
    id: i64,
    number: Option<i64>,
) -> (list: Seq<GeneralDocumentBlockView>)
    requires
        ran(states, after),
        match number {
            Some(page) => asked(
                before,
                after,
                BLOCKS_OF_PAGE@,
                seq![ArgView::Integer(id), ArgView::Integer(page)],
            ),
            None => asked(before, after, BLOCKS@, seq![ArgView::Integer(id)]),
        },
        answer(after) is Ok,
    ensures
        all_of::<GeneralDocumentBlock>(answer(after)) == Ok::<
            Seq<GeneralDocumentBlockView>,
            Fault,
        >(list),
        arranged(
            list,
            where_true(after_events(states, before.len()).general.blocks, block_of(id, number)),
            block_order(),
        ),
{
    let n = before.len() as int;
    assert(after[n] == after.last());
    assert(obeys(states[n], after[n], states[n + 1]));
    let chosen = where_true(states[n].rows.general.blocks, block_of(id, number));
    let given = answer(after)->Ok_0;
    assert(lists_blocks(states[n].rows.general.blocks, id, number, given));
    let list = choose|list: Seq<GeneralDocumentBlockView>| #[trigger]
        arranged(list, chosen, block_order()) && given == list.map_values(
            |block: GeneralDocumentBlockView| block_cells(block),
        );
    let cells = |block: GeneralDocumentBlockView| block_cells(block);
    let meaning = |block: GeneralDocumentBlockView| block;
    assert forall|i: int| 0 <= i < list.len() implies row_fault(
        cells(#[trigger] list[i]),
        <GeneralDocumentBlock as Record>::shape(),
    ) is None && <GeneralDocumentBlock as Record>::of_row(cells(list[i])) == meaning(list[i]) by {
        lemma_block_fits(list[i]);
    }
    lemma_all_read::<GeneralDocumentBlock, GeneralDocumentBlockView>(list, cells, meaning);
    assert(list.map_values(meaning) =~= list);
    list
}

/// Whether statements insert blocks on a page.
pub open spec fn all_on_page(args: Seq<Seq<ArgView>>, id: i64, page: i64) -> bool {
    forall|i: int|
        0 <= i < args.len() ==> (#[trigger] args[i])[0] == ArgView::Integer(id) && args[i][1]
            == ArgView::Integer(page)
}

/// Whether statements insert blocks in the order of their places on the page.
pub open spec fn places_ascend(args: Seq<Seq<ArgView>>) -> bool {
    forall|i: int, j: int|
        0 <= i < j < args.len() ==> arg_number((#[trigger] args[i])[2]) < arg_number(
            (#[trigger] args[j])[2],
        )
}

/// The blocks that replaced those of a page come back when the blocks of the page
/// are listed, and no others: in the order of their places on the page, which is
/// the order that they were given in where that goes by their places.
pub proof fn law_replaced_blocks_come_back(
    states: Seq<Tables>,
    before: Seq<Event>,
    kept: Seq<Event>,
    after: Seq<Event>,
    id: i64,
    page: i64,
    args: Seq<Seq<ArgView>>,
) -> (r: (Seq<GeneralDocumentBlockView>, Seq<GeneralDocumentBlockView>))
    requires
        ran(states, after),
        blocks_replaced(before, kept, id, page, args, Ok(())),
        all_on_page(args, id, page),
        asked(
            kept,
            after,
            BLOCKS_OF_PAGE@,
            seq![ArgView::Integer(id), ArgView::Integer(page)],
        ),
        answer(after) is Ok,
    ensures
        blocks_match(r.0, args),
        all_of::<GeneralDocumentBlock>(answer(after)) == Ok::<
            Seq<GeneralDocumentBlockView>,
            Fault,
        >(r.1),
        arranged(r.1, r.0, block_order()),
        places_ascend(args) ==> r.1 == r.0,
{
    let n = kept.len() as int;
    assert(after.take(n) =~= kept);
    lemma_ran_part(states, after, n);
    let held = states.take(n + 1);
    law_blocks_are_replaced(held, before, kept, id, page, args);
    let others = where_true(
        after_events(states, before.len()).general.blocks,
        off_page(id, page),
    );
    let now = after_events(states, kept.len()).general.blocks;
    let new = now.skip(others.len() as int);
    let condition = block_of(id, Some(page));
    assert(now =~= others + new) by {
        assert forall|i: int| 0 <= i < others.len() implies #[trigger] now[i] == others[i] by {
            assert(now.take(others.len() as int)[i] == now[i]);
        }
    }
    lemma_where_true_joined(others, new, condition);
    lemma_where_true_without(
        after_events(states, before.len()).general.blocks,
        off_page(id, page),
        condition,
    );
    assert forall|i: int| 0 <= i < new.len() implies condition(#[trigger] new[i]) by {
        assert(args[i][0] == ArgView::Integer(id));
    }
    lemma_where_true_all(new, condition);
    assert(where_true(now, condition) =~= new);
    let list = law_blocks_are_listed(states, kept, after, id, Some(page));
    if places_ascend(args) {
        assert forall|i: int, j: int| 0 <= i < j < new.len() implies block_order()(
            #[trigger] new[i],
            #[trigger] new[j],
        ) by {
            assert(arg_number(args[i][2]) < arg_number(args[j][2]));
            assert(args[i][1] == args[j][1]);
        }
        lemma_arranged_once(list, new, block_order());
    }
    (new, list)
}

/// The pages are as they were while the blocks of one are being replaced.
proof fn lemma_pages_stay_so_far(
    states: Seq<Tables>,
    history: Seq<Event>,
    n: int,
    id: i64,
    page: i64,
    args: Seq<Seq<ArgView>>,
    count: int,
)
    requires
        ran(states, history),
        0 <= n,
        0 <= count <= args.len(),
        block_prefix(history, n, id, page, args, count),
    ensures
        states[n + 2 + count].rows.general.pages == states[n].rows.general.pages,
    decreases count,
{
    assert(obeys(states[n], history[n], states[n + 1]));
    assert(obeys(states[n + 1], history[n + 1], states[n + 2]));
    if count > 0 {
        assert forall|i: int| 0 <= i < count - 1 implies keeps_block(
            #[trigger] history[n + 2 + i],
            args[i],
        ) && carried_out(history[n + 2 + i]) by {}
        lemma_pages_stay_so_far(states, history, n, id, page, args, count - 1);
        let k = n + 2 + (count - 1);
        assert(keeps_block(history[k], args[count - 1]));
        assert(obeys(states[k], history[k], states[k + 1]));
    }
}

/// To replace the blocks of a page leaves all pages as they were.
pub proof fn law_replaced_blocks_leave_pages(
    states: Seq<Tables>,
    before: Seq<Event>,
    after: Seq<Event>,
    id: i64,
    page: i64,
    args: Seq<Seq<ArgView>>,
)
    requires
        ran(states, after),
        blocks_replaced(before, after, id, page, args, Ok(())),
    ensures
        after_events(states, after.len()).general.pages == after_events(
            states,
            before.len(),
        ).general.pages,
{
    let n = before.len() as int;
    lemma_pages_stay_so_far(states, after, n, id, page, args, args.len() as int);
    let k = n + 2 + args.len();
    assert(after.last() == after[k]);
    assert(obeys(states[k], after[k], states[k + 1]));
}

} // verus!
