//! The store of general documents: uploaded files, their pages, what was read
//! on each page, and what became of it.
use vstd::prelude::*;

use crate::database::arg;
use crate::database::arg_views;
use crate::database::cell_views;
use crate::database::column_fits;
use crate::database::int_arg;
use crate::database::integer;
use crate::database::integer_cell;
use crate::database::lemma_row_fits;
use crate::database::opt_arg;
use crate::database::opt_cell_text;
use crate::database::opt_int_arg;
use crate::database::opt_integer;
use crate::database::opt_integer_cell;
use crate::database::opt_text_cell;
use crate::database::outcome_of;
use crate::database::shape_of;
use crate::database::text;
use crate::database::text_arg;
use crate::database::text_cell;
use crate::database::ArgView;
use crate::database::CellView;
use crate::database::Column;
use crate::database::ColumnView;
use crate::database::Event;
use crate::database::Fault;
use crate::database::Kind;
use crate::database::SqlArg;
use crate::database::SqlValue;
use crate::database::StoreError;
use crate::json::json_text;
use crate::json::Json;
use crate::json::JsonView;
use crate::sqlite::all_of;
use crate::sqlite::answer;
use crate::sqlite::any_result;
use crate::sqlite::asked;
use crate::sqlite::changed_rows;
use crate::sqlite::col;
use crate::sqlite::done_result;
use crate::sqlite::executed;
use crate::sqlite::first_of;
use crate::sqlite::inserted;
use crate::sqlite::list_outcome;
use crate::sqlite::option_outcome;
use crate::sqlite::Record;
use crate::sqlite::SqliteStore;
use crate::text::opt_str;
use crate::text::opt_text;

verus! {

/// A general document to be kept.
pub struct NewGeneralDocument<'a> {
    pub filename: &'a str,
    pub file_path: &'a str,
    pub page_count: i64,
}

/// A block of a page to be kept.
pub struct NewGeneralDocumentBlock<'a> {
    pub document_id: i64,
    pub page_number: i64,
    pub block_index: i64,
    pub block_type: &'a str,
    pub text: Option<&'a str>,
    pub bbox_json: Option<&'a str>,
    pub style_json: Option<&'a str>,
    pub image_path: Option<&'a str>,
    /// The vector by which the block is found, as a JSON array.
    pub embedding: Option<&'a str>,
}

/// A general document.
#[derive(Debug)]
pub struct GeneralDocumentSummary {
    pub id: i64,
    pub filename: String,
    pub file_path: String,
    pub page_count: i64,
    pub status: String,
    pub created_at: String,
    pub updated_at: String,
}

/// What a general document is.
pub struct GeneralDocumentSummaryView {
    pub id: i64,
    pub filename: Seq<char>,
    pub file_path: Seq<char>,
    pub page_count: i64,
    pub status: Seq<char>,
    pub created_at: Seq<char>,
    pub updated_at: Seq<char>,
}

impl Record for GeneralDocumentSummary {
    type V = GeneralDocumentSummaryView;

    open spec fn shape() -> Seq<ColumnView> {
        seq![
            col(Kind::Integer, "id"@),
            col(Kind::Text, "filename"@),
            col(Kind::Text, "file_path"@),
            col(Kind::Integer, "page_count"@),
            col(Kind::Text, "status"@),
            col(Kind::Text, "created_at"@),
            col(Kind::Text, "updated_at"@),
        ]
    }

    open spec fn of_row(row: Seq<CellView>) -> GeneralDocumentSummaryView {
        GeneralDocumentSummaryView {
            id: integer(row[0]),
            filename: text(row[1]),
            file_path: text(row[2]),
            page_count: integer(row[3]),
            status: text(row[4]),
            created_at: text(row[5]),
            updated_at: text(row[6]),
        }
    }

    open spec fn meaning(&self) -> GeneralDocumentSummaryView {
        GeneralDocumentSummaryView {
            id: self.id,
            filename: self.filename@,
            file_path: self.file_path@,
            page_count: self.page_count,
            status: self.status@,
            created_at: self.created_at@,
            updated_at: self.updated_at@,
        }
    }

    fn columns() -> (r: Vec<Column>) {
        let mut list: Vec<Column> = Vec::new();
        list.push(Column { kind: Kind::Integer, name: "id" });
        list.push(Column { kind: Kind::Text, name: "filename" });
        list.push(Column { kind: Kind::Text, name: "file_path" });
        list.push(Column { kind: Kind::Integer, name: "page_count" });
        list.push(Column { kind: Kind::Text, name: "status" });
        list.push(Column { kind: Kind::Text, name: "created_at" });
        list.push(Column { kind: Kind::Text, name: "updated_at" });
        assert(shape_of(list@) =~= Self::shape());
        list
    }

    fn from_row(row: &Vec<SqlValue>) -> (r: GeneralDocumentSummary) {
        proof {
            let cells = cell_views(row@);
            lemma_row_fits(cells, Self::shape(), 0);
            assert(column_fits(cells, Self::shape(), 0));
            assert(column_fits(cells, Self::shape(), 1));
            assert(column_fits(cells, Self::shape(), 2));
            assert(column_fits(cells, Self::shape(), 3));
            assert(column_fits(cells, Self::shape(), 4));
            assert(column_fits(cells, Self::shape(), 5));
            assert(column_fits(cells, Self::shape(), 6));
        }
        GeneralDocumentSummary {
            id: integer_cell(&row[0]),
            filename: text_cell(&row[1]),
            file_path: text_cell(&row[2]),
            page_count: integer_cell(&row[3]),
            status: text_cell(&row[4]),
            created_at: text_cell(&row[5]),
            updated_at: text_cell(&row[6]),
        }
    }
}

/// A page of a general document.
#[derive(Debug)]
pub struct GeneralDocumentPage {
    pub id: i64,
    pub document_id: i64,
    pub page_number: i64,
    pub status: String,
    pub ocr_text: Option<String>,
    pub edited_text: Option<String>,
    pub error: Option<String>,
    pub page_image_path: Option<String>,
    pub ocr_raw_json: Option<String>,
    pub page_width: Option<i64>,
    pub page_height: Option<i64>,
    pub layout_warning: Option<String>,
    pub updated_at: String,
}

/// What a page of a general document is.
pub struct GeneralDocumentPageView {
    pub id: i64,
    pub document_id: i64,
    pub page_number: i64,
    pub status: Seq<char>,
    pub ocr_text: Option<Seq<char>>,
    pub edited_text: Option<Seq<char>>,
    pub error: Option<Seq<char>>,
    pub page_image_path: Option<Seq<char>>,
    pub ocr_raw_json: Option<Seq<char>>,
    pub page_width: Option<i64>,
    pub page_height: Option<i64>,
    pub layout_warning: Option<Seq<char>>,
    pub updated_at: Seq<char>,
}

impl Record for GeneralDocumentPage {
    type V = GeneralDocumentPageView;

    open spec fn shape() -> Seq<ColumnView> {
        seq![
            col(Kind::Integer, "id"@),
            col(Kind::Integer, "document_id"@),
            col(Kind::Integer, "page_number"@),
            col(Kind::Text, "status"@),
            col(Kind::OptText, "ocr_text"@),
            col(Kind::OptText, "edited_text"@),
            col(Kind::OptText, "error"@),
            col(Kind::OptText, "page_image_path"@),
            col(Kind::OptText, "ocr_raw_json"@),
            col(Kind::OptInteger, "page_width"@),
            col(Kind::OptInteger, "page_height"@),
            col(Kind::OptText, "layout_warning"@),
            col(Kind::Text, "updated_at"@),
        ]
    }

    open spec fn of_row(row: Seq<CellView>) -> GeneralDocumentPageView {
        GeneralDocumentPageView {
            id: integer(row[0]),
            document_id: integer(row[1]),
            page_number: integer(row[2]),
            status: text(row[3]),
            ocr_text: opt_cell_text(row[4]),
            edited_text: opt_cell_text(row[5]),
            error: opt_cell_text(row[6]),
            page_image_path: opt_cell_text(row[7]),
            ocr_raw_json: opt_cell_text(row[8]),
            page_width: opt_integer(row[9]),
            page_height: opt_integer(row[10]),
            layout_warning: opt_cell_text(row[11]),
            updated_at: text(row[12]),
        }
    }

    open spec fn meaning(&self) -> GeneralDocumentPageView {
        GeneralDocumentPageView {
            id: self.id,
            document_id: self.document_id,
            page_number: self.page_number,
            status: self.status@,
            ocr_text: opt_text(self.ocr_text),
            edited_text: opt_text(self.edited_text),
            error: opt_text(self.error),
            page_image_path: opt_text(self.page_image_path),
            ocr_raw_json: opt_text(self.ocr_raw_json),
            page_width: self.page_width,
            page_height: self.page_height,
            layout_warning: opt_text(self.layout_warning),
            updated_at: self.updated_at@,
        }
    }

    fn columns() -> (r: Vec<Column>) {
        let mut list: Vec<Column> = Vec::new();
        list.push(Column { kind: Kind::Integer, name: "id" });
        list.push(Column { kind: Kind::Integer, name: "document_id" });
        list.push(Column { kind: Kind::Integer, name: "page_number" });
        list.push(Column { kind: Kind::Text, name: "status" });
        list.push(Column { kind: Kind::OptText, name: "ocr_text" });
        list.push(Column { kind: Kind::OptText, name: "edited_text" });
        list.push(Column { kind: Kind::OptText, name: "error" });
        list.push(Column { kind: Kind::OptText, name: "page_image_path" });
        list.push(Column { kind: Kind::OptText, name: "ocr_raw_json" });
        list.push(Column { kind: Kind::OptInteger, name: "page_width" });
        list.push(Column { kind: Kind::OptInteger, name: "page_height" });
        list.push(Column { kind: Kind::OptText, name: "layout_warning" });
        list.push(Column { kind: Kind::Text, name: "updated_at" });
        assert(shape_of(list@) =~= Self::shape());
        list
    }

    fn from_row(row: &Vec<SqlValue>) -> (r: GeneralDocumentPage) {
        proof {
            let cells = cell_views(row@);
            lemma_row_fits(cells, Self::shape(), 0);
            assert(column_fits(cells, Self::shape(), 0));
            assert(column_fits(cells, Self::shape(), 1));
            assert(column_fits(cells, Self::shape(), 2));
            assert(column_fits(cells, Self::shape(), 3));
            assert(column_fits(cells, Self::shape(), 4));
            assert(column_fits(cells, Self::shape(), 5));
            assert(column_fits(cells, Self::shape(), 6));
            assert(column_fits(cells, Self::shape(), 7));
            assert(column_fits(cells, Self::shape(), 8));
            assert(column_fits(cells, Self::shape(), 9));
            assert(column_fits(cells, Self::shape(), 10));
            assert(column_fits(cells, Self::shape(), 11));
            assert(column_fits(cells, Self::shape(), 12));
        }
        GeneralDocumentPage {
            id: integer_cell(&row[0]),
            document_id: integer_cell(&row[1]),
            page_number: integer_cell(&row[2]),
            status: text_cell(&row[3]),
            ocr_text: opt_text_cell(&row[4]),
            edited_text: opt_text_cell(&row[5]),
            error: opt_text_cell(&row[6]),
            page_image_path: opt_text_cell(&row[7]),
            ocr_raw_json: opt_text_cell(&row[8]),
            page_width: opt_integer_cell(&row[9]),
            page_height: opt_integer_cell(&row[10]),
            layout_warning: opt_text_cell(&row[11]),
            updated_at: text_cell(&row[12]),
        }
    }
}

/// A block of a page.
#[derive(Debug)]
pub struct GeneralDocumentBlock {
    pub id: i64,
    pub document_id: i64,
    pub page_number: i64,
    pub block_index: i64,
    pub block_type: String,
    pub text: Option<String>,
    pub bbox_json: Option<String>,
    pub style_json: Option<String>,
    pub image_path: Option<String>,
    /// The vector by which the block is found, as a JSON array.
    pub embedding: Option<String>,
    pub created_at: String,
    pub updated_at: String,
}

/// What a block of a page is.
pub struct GeneralDocumentBlockView {
    pub id: i64,
    pub document_id: i64,
    pub page_number: i64,
    pub block_index: i64,
    pub block_type: Seq<char>,
    pub text: Option<Seq<char>>,
    pub bbox_json: Option<Seq<char>>,
    pub style_json: Option<Seq<char>>,
    pub image_path: Option<Seq<char>>,
    pub embedding: Option<Seq<char>>,
    pub created_at: Seq<char>,
    pub updated_at: Seq<char>,
}

impl Record for GeneralDocumentBlock {
    type V = GeneralDocumentBlockView;

    open spec fn shape() -> Seq<ColumnView> {
        seq![
            col(Kind::Integer, "id"@),
            col(Kind::Integer, "document_id"@),
            col(Kind::Integer, "page_number"@),
            col(Kind::Integer, "block_index"@),
            col(Kind::Text, "block_type"@),
            col(Kind::OptText, "text"@),
            col(Kind::OptText, "bbox_json"@),
            col(Kind::OptText, "style_json"@),
            col(Kind::OptText, "image_path"@),
            col(Kind::OptText, "embedding"@),
            col(Kind::Text, "created_at"@),
            col(Kind::Text, "updated_at"@),
        ]
    }

    open spec fn of_row(row: Seq<CellView>) -> GeneralDocumentBlockView {
        GeneralDocumentBlockView {
            id: integer(row[0]),
            document_id: integer(row[1]),
            page_number: integer(row[2]),
            block_index: integer(row[3]),
            block_type: text(row[4]),
            text: opt_cell_text(row[5]),
            bbox_json: opt_cell_text(row[6]),
            style_json: opt_cell_text(row[7]),
            image_path: opt_cell_text(row[8]),
            embedding: opt_cell_text(row[9]),
            created_at: text(row[10]),
            updated_at: text(row[11]),
        }
    }

    open spec fn meaning(&self) -> GeneralDocumentBlockView {
        GeneralDocumentBlockView {
            id: self.id,
            document_id: self.document_id,
            page_number: self.page_number,
            block_index: self.block_index,
            block_type: self.block_type@,
            text: opt_text(self.text),
            bbox_json: opt_text(self.bbox_json),
            style_json: opt_text(self.style_json),
            image_path: opt_text(self.image_path),
            embedding: opt_text(self.embedding),
            created_at: self.created_at@,
            updated_at: self.updated_at@,
        }
    }

    fn columns() -> (r: Vec<Column>) {
        let mut list: Vec<Column> = Vec::new();
        list.push(Column { kind: Kind::Integer, name: "id" });
        list.push(Column { kind: Kind::Integer, name: "document_id" });
        list.push(Column { kind: Kind::Integer, name: "page_number" });
        list.push(Column { kind: Kind::Integer, name: "block_index" });
        list.push(Column { kind: Kind::Text, name: "block_type" });
        list.push(Column { kind: Kind::OptText, name: "text" });
        list.push(Column { kind: Kind::OptText, name: "bbox_json" });
        list.push(Column { kind: Kind::OptText, name: "style_json" });
        list.push(Column { kind: Kind::OptText, name: "image_path" });
        list.push(Column { kind: Kind::OptText, name: "embedding" });
        list.push(Column { kind: Kind::Text, name: "created_at" });
        list.push(Column { kind: Kind::Text, name: "updated_at" });
        assert(shape_of(list@) =~= Self::shape());
        list
    }

    fn from_row(row: &Vec<SqlValue>) -> (r: GeneralDocumentBlock) {
        proof {
            let cells = cell_views(row@);
            lemma_row_fits(cells, Self::shape(), 0);
            assert(column_fits(cells, Self::shape(), 0));
            assert(column_fits(cells, Self::shape(), 1));
            assert(column_fits(cells, Self::shape(), 2));
            assert(column_fits(cells, Self::shape(), 3));
            assert(column_fits(cells, Self::shape(), 4));
            assert(column_fits(cells, Self::shape(), 5));
            assert(column_fits(cells, Self::shape(), 6));
            assert(column_fits(cells, Self::shape(), 7));
            assert(column_fits(cells, Self::shape(), 8));
            assert(column_fits(cells, Self::shape(), 9));
            assert(column_fits(cells, Self::shape(), 10));
            assert(column_fits(cells, Self::shape(), 11));
        }
        GeneralDocumentBlock {
            id: integer_cell(&row[0]),
            document_id: integer_cell(&row[1]),
            page_number: integer_cell(&row[2]),
            block_index: integer_cell(&row[3]),
            block_type: text_cell(&row[4]),
            text: opt_text_cell(&row[5]),
            bbox_json: opt_text_cell(&row[6]),
            style_json: opt_text_cell(&row[7]),
            image_path: opt_text_cell(&row[8]),
            embedding: opt_text_cell(&row[9]),
            created_at: text_cell(&row[10]),
            updated_at: text_cell(&row[11]),
        }
    }
}

/// A number that was asked for.
impl Record for i64 {
    type V = i64;

    open spec fn shape() -> Seq<ColumnView> {
        seq![col(Kind::Integer, "COUNT(*)"@)]
    }

    open spec fn of_row(row: Seq<CellView>) -> i64 {
        integer(row[0])
    }

    open spec fn meaning(&self) -> i64 {
        *self
    }

    fn columns() -> (r: Vec<Column>) {
        let mut list: Vec<Column> = Vec::new();
        list.push(Column { kind: Kind::Integer, name: "COUNT(*)" });
        assert(shape_of(list@) =~= Self::shape());
        list
    }

    fn from_row(row: &Vec<SqlValue>) -> (r: i64) {
        proof {
            let cells = cell_views(row@);
            lemma_row_fits(cells, Self::shape(), 0);
            assert(column_fits(cells, Self::shape(), 0));
        }
        integer_cell(&row[0])
    }
}

// ---------------------------------------------------------------------------
// Statements
// ---------------------------------------------------------------------------

pub const CREATE_GENERAL_DOCUMENT: &'static str =
    "INSERT INTO general_document (filename, file_path, page_count) VALUES (?1, ?2, ?3)";

pub const CREATE_PAGE: &'static str =
    "INSERT INTO general_document_page (document_id, page_number) VALUES (?1, ?2)";

pub const GENERAL_DOCUMENTS: &'static str =
    "SELECT id, filename, file_path, page_count, status, created_at, updated_at FROM general_document ORDER BY id DESC";

pub const GET_GENERAL_DOCUMENT: &'static str =
    "SELECT id, filename, file_path, page_count, status, created_at, updated_at FROM general_document WHERE id = ?1";

pub const SET_FILE_PATH: &'static str =
    "UPDATE general_document SET file_path = ?1, updated_at = CURRENT_TIMESTAMP WHERE id = ?2";

pub const PAGES: &'static str =
    "SELECT id, document_id, page_number, status, ocr_text, edited_text, error, page_image_path, ocr_raw_json, page_width, page_height, layout_warning, updated_at FROM general_document_page WHERE document_id = ?1 ORDER BY page_number";

pub const GET_PAGE: &'static str =
    "SELECT id, document_id, page_number, status, ocr_text, edited_text, error, page_image_path, ocr_raw_json, page_width, page_height, layout_warning, updated_at FROM general_document_page WHERE document_id = ?1 AND page_number = ?2";

pub const SET_PAGE_ASSET: &'static str =
    "UPDATE general_document_page SET page_image_path = ?1, page_width = ?2, page_height = ?3, layout_warning = ?4, updated_at = CURRENT_TIMESTAMP WHERE document_id = ?5 AND page_number = ?6";

pub const SET_PAGE_OCR: &'static str =
    "UPDATE general_document_page SET status = ?1, ocr_text = ?2, ocr_raw_json = ?3, error = ?4, updated_at = CURRENT_TIMESTAMP WHERE document_id = ?5 AND page_number = ?6";

pub const DELETE_PAGE_BLOCKS: &'static str =
    "DELETE FROM general_document_block WHERE document_id = ?1 AND page_number = ?2";

pub const CREATE_BLOCK: &'static str =
    "INSERT INTO general_document_block (document_id, page_number, block_index, block_type, text, bbox_json, style_json, image_path, embedding) VALUES (?1, ?2, ?3, ?4, ?5, ?6, ?7, ?8, ?9)";

pub const BLOCKS_OF_PAGE: &'static str =
    "SELECT id, document_id, page_number, block_index, block_type, text, bbox_json, style_json, image_path, embedding, created_at, updated_at FROM general_document_block WHERE document_id = ?1 AND page_number = ?2 ORDER BY page_number, block_index";

pub const BLOCKS: &'static str =
    "SELECT id, document_id, page_number, block_index, block_type, text, bbox_json, style_json, image_path, embedding, created_at, updated_at FROM general_document_block WHERE document_id = ?1 ORDER BY page_number, block_index";

pub const SET_BLOCK_TEXT: &'static str =
    "UPDATE general_document_block SET text = ?1, updated_at = CURRENT_TIMESTAMP WHERE document_id = ?2 AND page_number = ?3 AND block_index = ?4";

pub const CREATE_REVISION: &'static str =
    "INSERT INTO general_document_revision (document_id, page_number, instruction, text) VALUES (?1, ?2, ?3, ?4)";

pub const SET_EDITED_TEXT: &'static str =
    "UPDATE general_document_page SET edited_text = ?1, updated_at = CURRENT_TIMESTAMP WHERE document_id = ?2 AND page_number = ?3";

pub const COUNT_PAGES: &'static str =
    "SELECT COUNT(*) FROM general_document_page WHERE document_id = ?1";

pub const COUNT_SUCCEEDED: &'static str =
    "SELECT COUNT(*) FROM general_document_page WHERE document_id = ?1 AND status = 'succeeded'";

pub const COUNT_FAILED: &'static str =
    "SELECT COUNT(*) FROM general_document_page WHERE document_id = ?1 AND status = 'failed'";

pub const SET_STATUS: &'static str =
    "UPDATE general_document SET status = ?1, updated_at = CURRENT_TIMESTAMP WHERE id = ?2";

pub const ENSURE_PAGE: &'static str =
    "INSERT OR IGNORE INTO general_document_page (document_id, page_number) VALUES (?1, ?2)";

pub const SET_PAGE_COUNT: &'static str =
    "UPDATE general_document SET page_count = ?1, updated_at = CURRENT_TIMESTAMP WHERE id = ?2";

pub const DELETE_GENERAL_DOCUMENT: &'static str = "DELETE FROM general_document WHERE id = ?1";

pub const BEGIN: &'static str = "BEGIN DEFERRED";

pub const COMMIT: &'static str = "COMMIT";

pub const ROLLBACK: &'static str = "ROLLBACK";

// ---------------------------------------------------------------------------
// Documents and pages
// ---------------------------------------------------------------------------

/// Whether an event is a statement about page `page` of a document.
pub open spec fn page_statement(event: Event, sql: Seq<char>, id: i64, page: int) -> bool {
    event matches Event::Execute { sql: s, args, changed } && s == sql && args == seq![
        ArgView::Integer(id),
        ArgView::Integer(page as i64),
    ]
}

/// Whether an event is a statement that was carried out.
pub open spec fn carried_out(event: Event) -> bool {
    event matches Event::Execute { sql, args, changed } && changed is Ok
}

/// What a statement that was not carried out failed with.
pub open spec fn failure_of(event: Event) -> Fault {
    match event {
        Event::Execute { sql, args, changed: Err(m) } => Fault::Database(m),
        Event::Batch { sql, done: Err(m) } => Fault::Database(m),
        _ => Fault::Database(Seq::empty()),
    }
}

/// Whether the history holds, from position `from` on, one statement for each
/// of the pages up to `count`, all of which were carried out.
pub open spec fn for_each_page(
    history: Seq<Event>,
    from: int,
    sql: Seq<char>,
    id: i64,
    count: int,
) -> bool {
    forall|i: int|
        0 <= i < count ==> page_statement(#[trigger] history[from + i], sql, id, i + 1)
            && carried_out(history[from + i])
}

/// Whether the history has grown by one statement for each of the pages up to
/// `count`, and by none after one that was not carried out.
pub open spec fn went_through_pages(
    before: Seq<Event>,
    after: Seq<Event>,
    sql: Seq<char>,
    id: i64,
    count: i64,
    result: Result<(), Fault>,
) -> bool {
    let n = before.len() as int;
    let told = after.len() - n;
    &&& told >= 0
    &&& after.take(n) == before
    &&& match result {
        Ok(_) => told == (if count < 0 {
            0
        } else {
            count as int
        }) && for_each_page(after, n, sql, id, told),
        Err(f) => {
            &&& f == failure_of(after.last())
            &&& 0 < told <= count
            &&& for_each_page(after, n, sql, id, told - 1)
            &&& page_statement(after.last(), sql, id, told)
            &&& !carried_out(after.last())
        },
    }
}

/// Whether the history has grown by the creation of a document: the document,
/// and then its pages.
pub open spec fn document_created(
    before: Seq<Event>,
    after: Seq<Event>,
    record: NewGeneralDocument<'_>,
    result: Result<i64, Fault>,
) -> bool {
    let n = before.len() as int;
    let first = after.take(n + 2);
    let args = seq![
        ArgView::Text(record.filename@),
        ArgView::Text(record.file_path@),
        ArgView::Integer(record.page_count),
    ];
    match result {
        Ok(id) => {
            &&& after.len() >= n + 2
            &&& inserted(before, first, CREATE_GENERAL_DOCUMENT@, args, Ok(id))
            &&& went_through_pages(first, after, CREATE_PAGE@, id, record.page_count, Ok(()))
        },
        Err(f) => {
            ||| inserted(before, after, CREATE_GENERAL_DOCUMENT@, args, Err(f))
            ||| {
                &&& after.len() > n + 2
                &&& after[n + 1] matches Event::LastInsertRowid(id) && inserted(
                    before,
                    first,
                    CREATE_GENERAL_DOCUMENT@,
                    args,
                    Ok(id),
                ) && went_through_pages(
                    first,
                    after,
                    CREATE_PAGE@,
                    id,
                    record.page_count,
                    Err(f),
                )
            }
        },
    }
}

impl SqliteStore {
    /// Hands the database one statement for each of the pages up to `count`.
    fn through_pages(&mut self, sql: &str, id: i64, count: i64) -> (r: Result<(), StoreError>)
        ensures
            went_through_pages(
                old(self).history(),
                final(self).history(),
                sql@,
                id,
                count,
                outcome_of(r),
            ),
    {
        let ghost before = self.history();
        let ghost n = before.len() as int;
        assert(before.take(n) =~= before);
        let mut page: i64 = 0;
        while page < count
            invariant
                0 <= page,
                page <= count || page == 0,
                before == old(self).history(),
                n == before.len(),
                self.history().len() == n + page,
                self.history().take(n) == before,
                for_each_page(self.history(), n, sql@, id, page as int),
            decreases count - page,
        {
            let ghost h = self.history();
            page += 1;
            let mut args: Vec<SqlArg> = Vec::new();
            args.push(SqlArg::Integer(id));
            args.push(SqlArg::Integer(page));
            assert(arg_views(args@) =~= seq![ArgView::Integer(id), ArgView::Integer(page)]);
            let done = self.perform(sql, args);
            proof {
                let now = self.history();
                assert(now.take(n) =~= h.take(n)) by {
                    assert(now.drop_last().take(n) =~= now.take(n));
                }
                assert forall|i: int| 0 <= i < page - 1 implies page_statement(
                    #[trigger] now[n + i],
                    sql@,
                    id,
                    i + 1,
                ) && carried_out(now[n + i]) by {
                    assert(now[n + i] == h[n + i]);
                }
                assert(now.last() == now[n + page - 1]);
            }
            match done {
                Ok(_) => {},
                Err(e) => {
                    return Err(e);
                },
            }
        }
        Ok(())
    }

    /// Keeps a general document with its pages, and says what number it has.
    pub fn create_general_document(&mut self, record: NewGeneralDocument<'_>) -> (r: Result<
        i64,
        StoreError,
    >)
        ensures
            document_created(old(self).history(), final(self).history(), record, outcome_of(r)),
    {
        let ghost before = self.history();
        let mut args: Vec<SqlArg> = Vec::new();
        args.push(arg(record.filename));
        args.push(arg(record.file_path));
        args.push(SqlArg::Integer(record.page_count));
        assert(arg_views(args@) =~= seq![
            ArgView::Text(record.filename@),
            ArgView::Text(record.file_path@),
            ArgView::Integer(record.page_count),
        ]);
        let id = match self.insert(CREATE_GENERAL_DOCUMENT, args) {
            Ok(id) => id,
            Err(e) => {
                return Err(e);
            },
        };
        let ghost first = self.history();
        let done = self.through_pages(CREATE_PAGE, id, record.page_count);
        proof {
            let n = before.len() as int;
            assert(self.history().take(n + 2) =~= first);
            assert(self.history()[n + 1] == first[n + 1]);
            assert(first[n + 1] == first.last());
        }
        match done {
            Ok(_) => Ok(id),
            Err(e) => Err(e),
        }
    }

    /// The general documents, the last first.
    pub fn list_general_documents(&mut self) -> (r: Result<
        Vec<GeneralDocumentSummary>,
        StoreError,
    >)
        ensures
            asked(old(self).history(), final(self).history(), GENERAL_DOCUMENTS@, Seq::empty()),
            list_outcome(r) == all_of::<GeneralDocumentSummary>(answer(final(self).history())),
    {
        let args: Vec<SqlArg> = Vec::new();
        assert(arg_views(args@) =~= Seq::empty());
        self.select::<GeneralDocumentSummary>(GENERAL_DOCUMENTS, args)
    }

    /// A general document.
    pub fn get_general_document(&mut self, id: i64) -> (r: Result<
        Option<GeneralDocumentSummary>,
        StoreError,
    >)
        ensures
            asked(
                old(self).history(),
                final(self).history(),
                GET_GENERAL_DOCUMENT@,
                seq![ArgView::Integer(id)],
            ),
            option_outcome(r) == first_of::<GeneralDocumentSummary>(
                answer(final(self).history()),
            ),
    {
        let mut args: Vec<SqlArg> = Vec::new();
        args.push(SqlArg::Integer(id));
        assert(arg_views(args@) =~= seq![ArgView::Integer(id)]);
        self.select_one::<GeneralDocumentSummary>(GET_GENERAL_DOCUMENT, args)
    }

    /// Deletes a general document with all that belongs to it, and says whether
    /// there was one.
    pub fn delete_general_document(&mut self, id: i64) -> (r: Result<bool, StoreError>)
        ensures
            executed(
                old(self).history(),
                final(self).history(),
                DELETE_GENERAL_DOCUMENT@,
                seq![ArgView::Integer(id)],
            ),
            outcome_of(r) == any_result(changed_rows(final(self).history())),
    {
        let mut args: Vec<SqlArg> = Vec::new();
        args.push(SqlArg::Integer(id));
        assert(arg_views(args@) =~= seq![ArgView::Integer(id)]);
        self.changes(DELETE_GENERAL_DOCUMENT, args)
    }

    /// Says where the file of a general document is.
    pub fn update_general_document_file_path(&mut self, id: i64, file_path: &str) -> (r: Result<
        (),
        StoreError,
    >)
        ensures
            executed(
                old(self).history(),
                final(self).history(),
                SET_FILE_PATH@,
                seq![ArgView::Text(file_path@), ArgView::Integer(id)],
            ),
            outcome_of(r) == done_result(changed_rows(final(self).history())),
    {
        let mut args: Vec<SqlArg> = Vec::new();
        args.push(arg(file_path));
        args.push(SqlArg::Integer(id));
        assert(arg_views(args@) =~= seq![ArgView::Text(file_path@), ArgView::Integer(id)]);
        self.perform(SET_FILE_PATH, args)
    }

    /// Adds the pages up to `page_count` that a general document lacks, and
    /// says how many it has.
    pub fn ensure_general_document_pages(&mut self, id: i64, page_count: i64) -> (r: Result<
        (),
        StoreError,
    >)
        ensures
            ({
                let before = old(self).history();
                let after = final(self).history();
                let between = after.drop_last();
                ||| r is Err && went_through_pages(
                    before,
                    after,
                    ENSURE_PAGE@,
                    id,
                    page_count,
                    outcome_of(r),
                )
                ||| {
                    &&& after.len() > before.len()
                    &&& went_through_pages(before, between, ENSURE_PAGE@, id, page_count, Ok(()))
                    &&& executed(
                        between,
                        after,
                        SET_PAGE_COUNT@,
                        seq![ArgView::Integer(page_count), ArgView::Integer(id)],
                    )
                    &&& outcome_of(r) == done_result(changed_rows(after))
                }
            }),
    {
        match self.through_pages(ENSURE_PAGE, id, page_count) {
            Ok(_) => {},
            Err(e) => {
                return Err(e);
            },
        }
        let mut args: Vec<SqlArg> = Vec::new();
        args.push(SqlArg::Integer(page_count));
        args.push(SqlArg::Integer(id));
        assert(arg_views(args@) =~= seq![ArgView::Integer(page_count), ArgView::Integer(id)]);
        self.perform(SET_PAGE_COUNT, args)
    }

    /// The pages of a general document, in order.
    pub fn list_general_document_pages(&mut self, document_id: i64) -> (r: Result<
        Vec<GeneralDocumentPage>,
        StoreError,
    >)
        ensures
            asked(
                old(self).history(),
                final(self).history(),
                PAGES@,
                seq![ArgView::Integer(document_id)],
            ),
            list_outcome(r) == all_of::<GeneralDocumentPage>(answer(final(self).history())),
    {
        let mut args: Vec<SqlArg> = Vec::new();
        args.push(SqlArg::Integer(document_id));
        assert(arg_views(args@) =~= seq![ArgView::Integer(document_id)]);
        self.select::<GeneralDocumentPage>(PAGES, args)
    }

    /// A page of a general document.
    pub fn get_general_document_page(&mut self, document_id: i64, page_number: i64) -> (r: Result<
        Option<GeneralDocumentPage>,
        StoreError,
    >)
        ensures
            asked(
                old(self).history(),
                final(self).history(),
                GET_PAGE@,
                seq![ArgView::Integer(document_id), ArgView::Integer(page_number)],
            ),
            option_outcome(r) == first_of::<GeneralDocumentPage>(answer(final(self).history())),
    {
        let mut args: Vec<SqlArg> = Vec::new();
        args.push(SqlArg::Integer(document_id));
        args.push(SqlArg::Integer(page_number));
        assert(arg_views(args@) =~= seq![
            ArgView::Integer(document_id),
            ArgView::Integer(page_number),
        ]);
        self.select_one::<GeneralDocumentPage>(GET_PAGE, args)
    }

    /// Says where the image of a page is, or why there is none.
    pub fn update_general_page_asset(
        &mut self,
        document_id: i64,
        page_number: i64,
        page_image_path: Option<&str>,
        page_width: Option<i64>,
        page_height: Option<i64>,
        layout_warning: Option<&str>,
    ) -> (r: Result<(), StoreError>)
        ensures
            executed(
                old(self).history(),
                final(self).history(),
                SET_PAGE_ASSET@,
                seq![
                    text_arg(opt_str(page_image_path)),
                    int_arg(page_width),
                    int_arg(page_height),
                    text_arg(opt_str(layout_warning)),
                    ArgView::Integer(document_id),
                    ArgView::Integer(page_number),
                ],
            ),
            outcome_of(r) == done_result(changed_rows(final(self).history())),
    {
        let mut args: Vec<SqlArg> = Vec::new();
        args.push(opt_arg(page_image_path));
        args.push(opt_int_arg(page_width));
        args.push(opt_int_arg(page_height));
        args.push(opt_arg(layout_warning));
        args.push(SqlArg::Integer(document_id));
        args.push(SqlArg::Integer(page_number));
        assert(arg_views(args@) =~= seq![
            text_arg(opt_str(page_image_path)),
            int_arg(page_width),
            int_arg(page_height),
            text_arg(opt_str(layout_warning)),
            ArgView::Integer(document_id),
            ArgView::Integer(page_number),
        ]);
        self.perform(SET_PAGE_ASSET, args)
    }
}

// ---------------------------------------------------------------------------
// The status of a document
// ---------------------------------------------------------------------------

/// The status of a document, from how many pages it has and how many of them
/// were read or could not be read.
pub open spec fn status_text(total: i64, succeeded: i64, failed: i64) -> Seq<char> {
    if total > 0 && succeeded == total {
        "succeeded"@
    } else if failed > 0 {
        "partial"@
    } else if succeeded > 0 {
        "running"@
    } else {
        "pending"@
    }
}

/// The status of a document.
pub fn document_status(total: i64, succeeded: i64, failed: i64) -> (r: &'static str)
    ensures
        r@ == status_text(total, succeeded, failed),
{
    if total > 0 && succeeded == total {
        "succeeded"
    } else if failed > 0 {
        "partial"
    } else if succeeded > 0 {
        "running"
    } else {
        "pending"
    }
}

/// The three questions about the pages of a document.
pub open spec fn count_sql(i: int) -> Seq<char> {
    if i == 0 {
        COUNT_PAGES@
    } else if i == 1 {
        COUNT_SUCCEEDED@
    } else {
        COUNT_FAILED@
    }
}

/// The number in an answer, of which there must be one.
pub open spec fn counted(rows: Result<Seq<Seq<CellView>>, Seq<char>>) -> Result<i64, Fault> {
    match first_of::<i64>(rows) {
        Err(f) => Err(f),
        Ok(Some(n)) => Ok(n),
        Ok(None) => Err(Fault::NoRow),
    }
}

/// What was counted in question `i` after position `n` of the history.
pub open spec fn count_at(history: Seq<Event>, n: int, i: int) -> Result<i64, Fault> {
    counted(answer(history.take(n + i + 1)))
}

/// Whether the history has grown by the three questions about the pages of a
/// document, up to the first that was not answered, and by a statement that
/// sets the status that follows from the answers.
pub open spec fn status_updated(
    before: Seq<Event>,
    after: Seq<Event>,
    id: i64,
    result: Result<(), Fault>,
) -> bool {
    let n = before.len() as int;
    let told = after.len() - n;
    &&& 1 <= told <= 4
    &&& after.take(n) == before
    &&& forall|i: int|
        #![trigger count_at(after, n, i)]
        0 <= i < 3 && i < told ==> asked(
            after.take(n + i),
            after.take(n + i + 1),
            count_sql(i),
            seq![ArgView::Integer(id)],
        ) && (count_at(after, n, i) is Ok || i == told - 1)
    &&& if told < 4 {
        result is Err && count_at(after, n, told - 1) == Err::<i64, Fault>(result->Err_0)
    } else {
        &&& count_at(after, n, 2) is Ok
        &&& executed(
            after.take(n + 3),
            after,
            SET_STATUS@,
            seq![
                ArgView::Text(
                    status_text(
                        count_at(after, n, 0)->Ok_0,
                        count_at(after, n, 1)->Ok_0,
                        count_at(after, n, 2)->Ok_0,
                    ),
                ),
                ArgView::Integer(id),
            ],
        )
        &&& result == done_result(changed_rows(after))
    }
}

impl SqliteStore {
    /// Asks the database for a number.
    fn count(&mut self, sql: &str, id: i64) -> (r: Result<i64, StoreError>)
        ensures
            asked(old(self).history(), final(self).history(), sql@, seq![ArgView::Integer(id)]),
            outcome_of(r) == counted(answer(final(self).history())),
    {
        let mut args: Vec<SqlArg> = Vec::new();
        args.push(SqlArg::Integer(id));
        assert(arg_views(args@) =~= seq![ArgView::Integer(id)]);
        match self.select_one::<i64>(sql, args) {
            Ok(Some(n)) => Ok(n),
            Ok(None) => Err(StoreError::NoRow),
            Err(e) => Err(e),
        }
    }

    /// Sets the status of a document from the states of its pages.
    fn update_general_document_status(&mut self, document_id: i64) -> (r: Result<(), StoreError>)
        ensures
            status_updated(
                old(self).history(),
                final(self).history(),
                document_id,
                outcome_of(r),
            ),
    {
        let ghost before = self.history();
        let ghost n = before.len() as int;
        let first = self.count(COUNT_PAGES, document_id);
        let ghost h1 = self.history();
        proof {
            assert(h1.take(n) =~= before);
            assert(h1.take(n + 1) =~= h1);
        }
        let total = match first {
            Ok(total) => total,
            Err(e) => {
                return Err(e);
            },
        };
        let second = self.count(COUNT_SUCCEEDED, document_id);
        let ghost h2 = self.history();
        proof {
            assert(h2.take(n) =~= h1.take(n));
            assert(h2.take(n + 1) =~= h1);
            assert(h2.take(n + 2) =~= h2);
        }
        let succeeded = match second {
            Ok(succeeded) => succeeded,
            Err(e) => {
                return Err(e);
            },
        };
        let third = self.count(COUNT_FAILED, document_id);
        let ghost h3 = self.history();
        proof {
            assert(h3.take(n) =~= h2.take(n));
            assert(h3.take(n + 1) =~= h2.take(n + 1));
            assert(h3.take(n + 2) =~= h2);
            assert(h3.take(n + 3) =~= h3);
        }
        let failed = match third {
            Ok(failed) => failed,
            Err(e) => {
                return Err(e);
            },
        };
        let status = document_status(total, succeeded, failed);
        let mut args: Vec<SqlArg> = Vec::new();
        args.push(arg(status));
        args.push(SqlArg::Integer(document_id));
        assert(arg_views(args@) =~= seq![ArgView::Text(status@), ArgView::Integer(document_id)]);
        let r = self.perform(SET_STATUS, args);
        proof {
            let h4 = self.history();
            assert(h4.take(n) =~= h3.take(n));
            assert(h4.take(n + 1) =~= h3.take(n + 1));
            assert(h4.take(n + 2) =~= h3.take(n + 2));
            assert(h4.take(n + 3) =~= h3);
        }
        r
    }
}

/// Whether the history has grown by a statement and, if it was carried out, by
/// the update of the status of a document.
pub open spec fn told_with_status(
    before: Seq<Event>,
    after: Seq<Event>,
    sql: Seq<char>,
    args: Seq<ArgView>,
    id: i64,
    result: Result<(), Fault>,
) -> bool {
    let first = after.take(before.len() as int + 1);
    &&& after.len() > before.len()
    &&& executed(before, first, sql, args)
    &&& match changed_rows(first) {
        Err(m) => after == first && result == Err::<(), Fault>(Fault::Database(m)),
        Ok(_) => status_updated(first, after, id, result),
    }
}

/// A JSON value that may be missing.
pub open spec fn opt_json(value: Option<&Json>) -> Option<JsonView> {
    match value {
        Some(v) => Some(v@),
        None => None,
    }
}

/// The arguments of the statement that keeps what came of reading a page.
pub open spec fn page_ocr_args(
    document_id: i64,
    page_number: i64,
    status: Seq<char>,
    text: Option<Seq<char>>,
    raw_json: Option<JsonView>,
    error: Option<Seq<char>>,
) -> Seq<ArgView> {
    seq![
        ArgView::Text(status),
        text_arg(text),
        match raw_json {
            Some(v) => ArgView::Text(json_text(v)),
            None => ArgView::Null,
        },
        text_arg(error),
        ArgView::Integer(document_id),
        ArgView::Integer(page_number),
    ]
}

/// Whether the history has grown by the statements that keep an edited text of
/// a page, each only if those before it were carried out, and by the update of
/// the status of the document.
pub open spec fn revision_saved(
    before: Seq<Event>,
    after: Seq<Event>,
    document_id: i64,
    page_number: i64,
    instruction: Seq<char>,
    text: Seq<char>,
    result: Result<(), Fault>,
) -> bool {
    let first = after.take(before.len() as int + 1);
    &&& after.len() > before.len()
    &&& executed(
        before,
        first,
        CREATE_REVISION@,
        seq![
            ArgView::Integer(document_id),
            ArgView::Integer(page_number),
            ArgView::Text(instruction),
            ArgView::Text(text),
        ],
    )
    &&& match changed_rows(first) {
        Err(m) => after == first && result == Err::<(), Fault>(Fault::Database(m)),
        Ok(_) => told_with_status(
            first,
            after,
            SET_EDITED_TEXT@,
            seq![
                ArgView::Text(text),
                ArgView::Integer(document_id),
                ArgView::Integer(page_number),
            ],
            document_id,
            result,
        ),
    }
}

impl SqliteStore {
    /// Hands a statement to the database, and sets the status of a document.
    fn perform_with_status(&mut self, sql: &str, args: Vec<SqlArg>, id: i64) -> (r: Result<
        (),
        StoreError,
    >)
        ensures
            told_with_status(
                old(self).history(),
                final(self).history(),
                sql@,
                arg_views(args@),
                id,
                outcome_of(r),
            ),
    {
        let ghost before = self.history();
        let done = self.perform(sql, args);
        let ghost first = self.history();
        assert(first.take(before.len() as int + 1) =~= first);
        match done {
            Ok(_) => {},
            Err(e) => {
                return Err(e);
            },
        }
        self.update_general_document_status(id)
    }

    /// Keeps what came of reading a page, and sets the status of the document.
    pub fn update_general_page_ocr(
        &mut self,
        document_id: i64,
        page_number: i64,
        status: &str,
        text: Option<&str>,
        raw_json: Option<&Json>,
        error: Option<&str>,
    ) -> (r: Result<(), StoreError>)
        ensures
            told_with_status(
                old(self).history(),
                final(self).history(),
                SET_PAGE_OCR@,
                page_ocr_args(
                    document_id,
                    page_number,
                    status@,
                    opt_str(text),
                    opt_json(raw_json),
                    opt_str(error),
                ),
                document_id,
                outcome_of(r),
            ),
    {
        let raw = match raw_json {
            Some(v) => SqlArg::Text(v.to_text()),
            None => SqlArg::Null,
        };
        let mut args: Vec<SqlArg> = Vec::new();
        args.push(arg(status));
        args.push(opt_arg(text));
        args.push(raw);
        args.push(opt_arg(error));
        args.push(SqlArg::Integer(document_id));
        args.push(SqlArg::Integer(page_number));
        assert(arg_views(args@) =~= page_ocr_args(
            document_id,
            page_number,
            status@,
            opt_str(text),
            opt_json(raw_json),
            opt_str(error),
        ));
        self.perform_with_status(SET_PAGE_OCR, args, document_id)
    }

    /// Keeps an edited text of a page with the instruction that led to it, and
    /// sets the status of the document.
    pub fn save_general_revision(
        &mut self,
        document_id: i64,
        page_number: i64,
        instruction: &str,
        text: &str,
    ) -> (r: Result<(), StoreError>)
        ensures
            revision_saved(
                old(self).history(),
                final(self).history(),
                document_id,
                page_number,
                instruction@,
                text@,
                outcome_of(r),
            ),
    {
        let ghost before = self.history();
        let mut args: Vec<SqlArg> = Vec::new();
        args.push(SqlArg::Integer(document_id));
        args.push(SqlArg::Integer(page_number));
        args.push(arg(instruction));
        args.push(arg(text));
        assert(arg_views(args@) =~= seq![
            ArgView::Integer(document_id),
            ArgView::Integer(page_number),
            ArgView::Text(instruction@),
            ArgView::Text(text@),
        ]);
        let done = self.perform(CREATE_REVISION, args);
        let ghost first = self.history();
        assert(first.take(before.len() as int + 1) =~= first);
        match done {
            Ok(_) => {},
            Err(e) => {
                return Err(e);
            },
        }
        let mut args: Vec<SqlArg> = Vec::new();
        args.push(arg(text));
        args.push(SqlArg::Integer(document_id));
        args.push(SqlArg::Integer(page_number));
        assert(arg_views(args@) =~= seq![
            ArgView::Text(text@),
            ArgView::Integer(document_id),
            ArgView::Integer(page_number),
        ]);
        let r = self.perform_with_status(SET_EDITED_TEXT, args, document_id);
        proof {
            let after = self.history();
            let m = first.len() as int;
            let second = after.take(m + 1);
            assert(second.drop_last() =~= after.take(m));
        }
        r
    }
}

// ---------------------------------------------------------------------------
// Blocks
// ---------------------------------------------------------------------------

/// The arguments of the statement that keeps a block.
pub open spec fn block_args(block: NewGeneralDocumentBlock<'_>) -> Seq<ArgView> {
    seq![
        ArgView::Integer(block.document_id),
        ArgView::Integer(block.page_number),
        ArgView::Integer(block.block_index),
        ArgView::Text(block.block_type@),
        text_arg(opt_str(block.text)),
        text_arg(opt_str(block.bbox_json)),
        text_arg(opt_str(block.style_json)),
        text_arg(opt_str(block.image_path)),
        text_arg(opt_str(block.embedding)),
    ]
}

/// The arguments of the statements that keep blocks.
pub open spec fn blocks_args(blocks: Seq<NewGeneralDocumentBlock<'_>>) -> Seq<Seq<ArgView>> {
    Seq::new(blocks.len(), |i: int| block_args(blocks[i]))
}

/// Whether an event is the statement that keeps a block.
pub open spec fn keeps_block(event: Event, block: Seq<ArgView>) -> bool {
    event matches Event::Execute { sql, args, changed } && sql == CREATE_BLOCK@ && args == block
}

/// Whether an event is the statement that deletes the blocks of a page.
pub open spec fn clears_page(event: Event, id: i64, page: i64) -> bool {
    event matches Event::Execute { sql, args, changed } && sql == DELETE_PAGE_BLOCKS@ && args
        == seq![ArgView::Integer(id), ArgView::Integer(page)]
}

/// Whether the history holds, from position `n` on, the beginning of a
/// transaction, the deletion of the blocks of a page, and the first `count` of
/// the new ones, all carried out.
pub open spec fn block_prefix(
    history: Seq<Event>,
    n: int,
    id: i64,
    page: i64,
    blocks: Seq<Seq<ArgView>>,
    count: int,
) -> bool {
    &&& history.len() >= n + 2 + count
    &&& history[n] == (Event::Batch { sql: BEGIN@, done: Ok(()) })
    &&& clears_page(history[n + 1], id, page)
    &&& carried_out(history[n + 1])
    &&& forall|i: int|
        0 <= i < count ==> keeps_block(#[trigger] history[n + 2 + i], blocks[i]) && carried_out(
            history[n + 2 + i],
        )
}

/// Whether an event at position `at` after the beginning of a transaction is
/// the statement that is due there, and failed.
pub open spec fn block_failure(
    event: Event,
    at: int,
    id: i64,
    page: i64,
    blocks: Seq<Seq<ArgView>>,
) -> bool {
    if at == 0 {
        clears_page(event, id, page) && !carried_out(event)
    } else if at <= blocks.len() {
        keeps_block(event, blocks[at - 1]) && !carried_out(event)
    } else {
        event matches Event::Batch { sql, done } && sql == COMMIT@ && done is Err
    }
}

/// Whether the history has grown by the replacement of the blocks of a page,
/// in a transaction: either all the new blocks are committed, or the
/// transaction is rolled back at the first statement that fails.
pub open spec fn blocks_replaced(
    before: Seq<Event>,
    after: Seq<Event>,
    id: i64,
    page: i64,
    blocks: Seq<Seq<ArgView>>,
    result: Result<(), Fault>,
) -> bool {
    let n = before.len() as int;
    let told = after.len() - n;
    &&& told >= 1
    &&& after.take(n) == before
    &&& match result {
        Ok(_) => {
            &&& told == blocks.len() + 3
            &&& block_prefix(after, n, id, page, blocks, blocks.len() as int)
            &&& after.last() == (Event::Batch { sql: COMMIT@, done: Ok(()) })
        },
        Err(f) => {
            if told == 1 {
                &&& after.last() matches Event::Batch { sql, done } && sql == BEGIN@ && done is Err
                &&& f == failure_of(after.last())
            } else {
                let at = told - 3;
                &&& 0 <= at <= blocks.len() + 1
                &&& after[n] == (Event::Batch { sql: BEGIN@, done: Ok(()) })
                &&& at > 0 ==> block_prefix(after, n, id, page, blocks, at - 1)
                &&& block_failure(after[n + 1 + at], at, id, page, blocks)
                &&& f == failure_of(after[n + 1 + at])
                &&& after.last() matches Event::Batch { sql, done } && sql == ROLLBACK@
            }
        },
    }
}

impl SqliteStore {
    /// Rolls a transaction back. There is nothing to be done where that fails.
    fn roll_back(&mut self)
        ensures
            final(self).history().len() == old(self).history().len() + 1,
            final(self).history().drop_last() == old(self).history(),
            final(self).history().last() matches Event::Batch { sql, done } && sql == ROLLBACK@,
    {
        let ghost before = self.history();
        let _ = self.batch(ROLLBACK);
        assert(self.history().drop_last() =~= before);
    }

    /// Replaces the blocks of a page, all or none of them.
    pub fn replace_general_page_blocks(
        &mut self,
        document_id: i64,
        page_number: i64,
        blocks: &Vec<NewGeneralDocumentBlock<'_>>,
    ) -> (r: Result<(), StoreError>)
        ensures
            blocks_replaced(
                old(self).history(),
                final(self).history(),
                document_id,
                page_number,
                blocks_args(blocks@),
                outcome_of(r),
            ),
    {
        let ghost all = blocks_args(blocks@);
        let ghost before = self.history();
        let ghost n = before.len() as int;
        let begun = self.batch(BEGIN);
        let ghost h0 = self.history();
        assert(h0.take(n) =~= before);
        match begun {
            Ok(_) => {},
            Err(e) => {
                return Err(e);
            },
        }
        let mut args: Vec<SqlArg> = Vec::new();
        args.push(SqlArg::Integer(document_id));
        args.push(SqlArg::Integer(page_number));
        assert(arg_views(args@) =~= seq![
            ArgView::Integer(document_id),
            ArgView::Integer(page_number),
        ]);
        let cleared = self.perform(DELETE_PAGE_BLOCKS, args);
        let ghost h1 = self.history();
        proof {
            assert(h1.take(n) =~= h0.take(n));
            assert(h1[n] == h0[n]);
            assert(h1[n + 1] == h1.last());
        }
        match cleared {
            Ok(_) => {},
            Err(e) => {
                self.roll_back();
                proof {
                    let after = self.history();
                    assert(after.take(n) =~= h1.take(n));
                    assert(after[n] == h1[n]);
                    assert(after[n + 1] == h1[n + 1]);
                }
                return Err(e);
            },
        }
        let mut i: usize = 0;
        while i < blocks.len()
            invariant
                i <= blocks@.len(),
                all == blocks_args(blocks@),
                before == old(self).history(),
                n == before.len(),
                self.history().len() == n + 2 + i,
                self.history().take(n) == before,
                block_prefix(
                    self.history(),
                    n,
                    document_id,
                    page_number,
                    all,
                    i as int,
                ),
            decreases blocks@.len() - i,
        {
            let ghost h = self.history();
            let block = &blocks[i];
            let mut args: Vec<SqlArg> = Vec::new();
            args.push(SqlArg::Integer(block.document_id));
            args.push(SqlArg::Integer(block.page_number));
            args.push(SqlArg::Integer(block.block_index));
            args.push(arg(block.block_type));
            args.push(opt_arg(block.text));
            args.push(opt_arg(block.bbox_json));
            args.push(opt_arg(block.style_json));
            args.push(opt_arg(block.image_path));
            args.push(opt_arg(block.embedding));
            assert(arg_views(args@) =~= all[i as int]);
            let kept = self.perform(CREATE_BLOCK, args);
            let ghost now = self.history();
            proof {
                assert(now.take(n) =~= h.take(n)) by {
                    assert(now.drop_last().take(n) =~= now.take(n));
                }
                assert(now[n] == h[n]);
                assert(now[n + 1] == h[n + 1]);
                assert forall|k: int| 0 <= k < i implies keeps_block(
                    #[trigger] now[n + 2 + k],
                    all[k],
                ) && carried_out(now[n + 2 + k]) by {
                    assert(now[n + 2 + k] == h[n + 2 + k]);
                }
                assert(now[n + 2 + i] == now.last());
            }
            match kept {
                Ok(_) => {},
                Err(e) => {
                    self.roll_back();
                    proof {
                        let after = self.history();
                        assert(after.take(n) =~= now.take(n)) by {
                            assert(after.drop_last().take(n) =~= after.take(n));
                        }
                        assert forall|k: int| 0 <= k <= i + 2 implies #[trigger] after[n + k]
                            == now[n + k] by {
                            assert(after.drop_last()[n + k] == after[n + k]);
                        }
                        assert(after[n] == now[n]);
                        assert(after[n + 1] == now[n + 1]);
                        assert(after[n + (2 + i)] == now[n + 2 + i]);
                        assert forall|k: int| 0 <= k < i implies keeps_block(
                            #[trigger] after[n + 2 + k],
                            all[k],
                        ) && carried_out(after[n + 2 + k]) by {
                            assert(after[n + (2 + k)] == now[n + 2 + k]);
                        }
                    }
                    return Err(e);
                },
            }
            i += 1;
        }
        let ghost h = self.history();
        let committed = self.batch(COMMIT);
        let ghost now = self.history();
        proof {
            assert(now.drop_last() =~= h);
            assert(now.take(n) =~= h.take(n));
            assert(now[n] == h[n]);
            assert(now[n + 1] == h[n + 1]);
            assert forall|k: int| 0 <= k < blocks@.len() implies keeps_block(
                #[trigger] now[n + 2 + k],
                all[k],
            ) && carried_out(now[n + 2 + k]) by {
                assert(now[n + 2 + k] == h[n + 2 + k]);
            }
        }
        match committed {
            Ok(_) => Ok(()),
            Err(e) => {
                self.roll_back();
                proof {
                    let after = self.history();
                    assert(after.take(n) =~= now.take(n)) by {
                        assert(after.drop_last().take(n) =~= after.take(n));
                    }
                    assert(after[n] == now[n]);
                    assert(after[n + 1] == now[n + 1]);
                    assert(after[n + 2 + blocks@.len()] == now.last());
                    assert forall|k: int| 0 <= k < blocks@.len() implies keeps_block(
                        #[trigger] after[n + 2 + k],
                        all[k],
                    ) && carried_out(after[n + 2 + k]) by {
                        assert(after[n + 2 + k] == now[n + 2 + k]);
                    }
                }
                Err(e)
            },
        }
    }

    /// The blocks of a page or of all pages, in order.
    pub fn list_general_document_blocks(
        &mut self,
        document_id: i64,
        page_number: Option<i64>,
    ) -> (r: Result<Vec<GeneralDocumentBlock>, StoreError>)
        ensures
            match page_number {
                Some(page) => asked(
                    old(self).history(),
                    final(self).history(),
                    BLOCKS_OF_PAGE@,
                    seq![ArgView::Integer(document_id), ArgView::Integer(page)],
                ),
                None => asked(
                    old(self).history(),
                    final(self).history(),
                    BLOCKS@,
                    seq![ArgView::Integer(document_id)],
                ),
            },
            list_outcome(r) == all_of::<GeneralDocumentBlock>(answer(final(self).history())),
    {
        let mut args: Vec<SqlArg> = Vec::new();
        args.push(SqlArg::Integer(document_id));
        let sql = match page_number {
            Some(page) => {
                args.push(SqlArg::Integer(page));
                BLOCKS_OF_PAGE
            },
            None => BLOCKS,
        };
        proof {
            match page_number {
                Some(page) => assert(arg_views(args@) =~= seq![
                    ArgView::Integer(document_id),
                    ArgView::Integer(page),
                ]),
                None => assert(arg_views(args@) =~= seq![ArgView::Integer(document_id)]),
            }
        }
        self.select::<GeneralDocumentBlock>(sql, args)
    }

    /// Replaces the text of a block, and says whether there was one.
    pub fn update_general_block_text(
        &mut self,
        document_id: i64,
        page_number: i64,
        block_index: i64,
        text: &str,
    ) -> (r: Result<bool, StoreError>)
        ensures
            executed(
                old(self).history(),
                final(self).history(),
                SET_BLOCK_TEXT@,
                seq![
                    ArgView::Text(text@),
                    ArgView::Integer(document_id),
                    ArgView::Integer(page_number),
                    ArgView::Integer(block_index),
                ],
            ),
            outcome_of(r) == any_result(changed_rows(final(self).history())),
    {
        let mut args: Vec<SqlArg> = Vec::new();
        args.push(arg(text));
        args.push(SqlArg::Integer(document_id));
        args.push(SqlArg::Integer(page_number));
        args.push(SqlArg::Integer(block_index));
        assert(arg_views(args@) =~= seq![
            ArgView::Text(text@),
            ArgView::Integer(document_id),
            ArgView::Integer(page_number),
            ArgView::Integer(block_index),
        ]);
        self.changes(SET_BLOCK_TEXT, args)
    }
}

/// A document is read through exactly where all its pages are, and it has some;
/// one page that failed makes it partial; before that, one page that was read makes
/// it running; and before that it is pending.
pub proof fn law_status_by_pages(total: i64, succeeded: i64, failed: i64)
    ensures
        total > 0 && succeeded == total ==> status_text(total, succeeded, failed) == "succeeded"@,
        failed > 0 && succeeded != total ==> status_text(total, succeeded, failed) == "partial"@,
        failed == 0 && 0 < succeeded < total ==> status_text(total, succeeded, failed)
            == "running"@,
        failed == 0 && succeeded == 0 ==> status_text(total, succeeded, failed) == "pending"@,
{
}

} // verus!
