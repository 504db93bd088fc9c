//! What the tables of the store hold, and what follows for its operations.
//!
//! The operations of the store say which statements they hand to the database.
//! Here stands what a database makes of those statements: how each changes the
//! rows of the tables, and which answers are right. Of every history in which
//! the database does that, the laws say what a caller can rely on: that what
//! was written is read back, and what stays as it is.
use vstd::prelude::*;

use crate::database::column_fits;
use crate::database::row_fault;
use crate::database::row_fault_from;
use crate::database::rows_fault;
use crate::database::text_arg;
use crate::database::ArgView;
use crate::database::CellView;
use crate::database::ColumnView;
use crate::database::Event;
use crate::database::Fault;
use crate::general_store::BEGIN;
use crate::general_store::COMMIT;
use crate::general_store::ROLLBACK;
use crate::general_tables::general_answer;
use crate::general_tables::general_step;
use crate::general_tables::GeneralRows;
use crate::json::json_text;
use crate::json::parsed_json;
use crate::json::JsonView;
use crate::sort::precedes;
use crate::sqlite::added_columns;
use crate::sqlite::adds_column;
use crate::sqlite::all_of;
use crate::sqlite::answer;
use crate::sqlite::any_result;
use crate::sqlite::asked;
use crate::sqlite::changed_rows;
use crate::sqlite::default_resolved;
use crate::sqlite::default_sql;
use crate::sqlite::document_option;
use crate::sqlite::executed;
use crate::sqlite::fields_list;
use crate::sqlite::fields_option;
use crate::sqlite::first_of;
use crate::sqlite::inserted;
use crate::sqlite::migrated;
use crate::sqlite::parsed_all;
use crate::sqlite::scope_args;
use crate::sqlite::template_args;
use crate::sqlite::template_created;
use crate::sqlite::templates_args;
use crate::sqlite::templates_sql;
use crate::sqlite::unset_sql;
use crate::sqlite::DocumentRow;
use crate::sqlite::DocumentRowView;
use crate::sqlite::DocumentSummary;
use crate::sqlite::DocumentSummaryView;
use crate::sqlite::DocumentView;
use crate::sqlite::NewTemplateRecord;
use crate::sqlite::Record;
use crate::sqlite::TemplateRecord;
use crate::sqlite::TemplateRecordView;
use crate::sqlite::CENTRAL_DEFAULT;
use crate::sqlite::CREATE_TEMPLATE;
use crate::sqlite::DEFAULT_OF_AGENCY;
use crate::sqlite::DELETE_DOCUMENT;
use crate::sqlite::DOCUMENTS;
use crate::sqlite::DOCUMENTS_OF_TYPE;
use crate::sqlite::EMBEDDINGS;
use crate::sqlite::EMBEDDINGS_OF_TYPE;
use crate::sqlite::GET_DOCUMENT;
use crate::sqlite::GET_TEMPLATE;
use crate::sqlite::MEMORY_FIELDS;
use crate::sqlite::RECENT;
use crate::sqlite::RECENT_OF_TYPE;
use crate::sqlite::SAVE_DOCUMENT;
use crate::sqlite::SCHEMA;
use crate::sqlite::STORE_MEMORY;
use crate::sqlite::TEMPLATES;
use crate::sqlite::TEMPLATES_OF_AGENCY;
use crate::sqlite::TEMPLATES_OF_TYPE;
use crate::sqlite::TEMPLATES_OF_TYPE_AND_AGENCY;
use crate::sqlite::UNSET_CENTRAL_DEFAULT;
use crate::sqlite::UNSET_DEFAULT_OF_AGENCY;
use crate::sqlite::UPDATE_DOCUMENT;
use crate::sqlite::VECTORS;
use crate::text::opt_str;

verus! {

// ---------------------------------------------------------------------------
// Rows and cells
// ---------------------------------------------------------------------------

/// The row of an example.
pub struct MemoryRow {
    pub id: i64,
    pub doc_type: Seq<char>,
    pub fields_json: Seq<char>,
    pub embedding: Option<Seq<char>>,
}

/// The rows of the tables.
pub struct Rows {
    pub memory: Seq<MemoryRow>,
    pub templates: Seq<TemplateRecordView>,
    pub documents: Seq<DocumentRowView>,
    pub general: GeneralRows,
}

/// What a database holds: the rows, the number of the row that was inserted
/// last, and the rows as they were when a transaction began.
pub struct Tables {
    pub rows: Rows,
    pub last_id: i64,
    pub saved: Option<Rows>,
}

/// The text of an argument.
pub open spec fn arg_text(arg: ArgView) -> Seq<char> {
    arg->Text_0
}

/// The text of an argument that may have none.
pub open spec fn arg_option(arg: ArgView) -> Option<Seq<char>> {
    match arg {
        ArgView::Text(s) => Some(s),
        _ => None,
    }
}

/// The number of an argument.
pub open spec fn arg_number(arg: ArgView) -> i64 {
    arg->Integer_0
}

/// The cell of a text that may be missing.
pub open spec fn cell_or_null(text: Option<Seq<char>>) -> CellView {
    match text {
        Some(s) => CellView::Text(s),
        None => CellView::Null,
    }
}

/// The rows that a condition holds of, in their order.
pub open spec fn where_true<R>(rows: Seq<R>, condition: spec_fn(R) -> bool) -> Seq<R>
    decreases rows.len(),
{
    if rows.len() == 0 {
        Seq::empty()
    } else {
        let before = where_true(rows.drop_last(), condition);
        if condition(rows.last()) {
            before.push(rows.last())
        } else {
            before
        }
    }
}

/// The rows that a condition holds of, the last first.
pub open spec fn newest_first<R>(rows: Seq<R>, condition: spec_fn(R) -> bool) -> Seq<R> {
    where_true(rows, condition).reverse()
}

/// Whether two lists hold the same rows, each as often, in whatever order.
pub open spec fn same_rows<R>(a: Seq<R>, b: Seq<R>) -> bool {
    a.to_multiset() == b.to_multiset()
}

/// Whether a list holds these rows in an order: none comes after one that it
/// precedes.
pub open spec fn arranged<R>(
    list: Seq<R>,
    rows: Seq<R>,
    precedes: spec_fn(R, R) -> bool,
) -> bool {
    &&& same_rows(list, rows)
    &&& forall|i: int, j: int|
        0 <= i < j < list.len() ==> !precedes(#[trigger] list[j], #[trigger] list[i])
}

// ---------------------------------------------------------------------------
// Saved documents
// ---------------------------------------------------------------------------

/// The cells of a document in an answer.
pub open spec fn document_cells(row: DocumentRowView) -> Seq<CellView> {
    seq![
        CellView::Integer(row.id),
        CellView::Text(row.doc_type),
        cell_or_null(row.title),
        CellView::Text(row.doc_json),
        CellView::Text(row.created_at),
    ]
}

/// The cells of a document in an answer that lists documents.
pub open spec fn document_summary_cells(row: DocumentRowView) -> Seq<CellView> {
    seq![
        CellView::Integer(row.id),
        CellView::Text(row.doc_type),
        cell_or_null(row.title),
        CellView::Text(row.created_at),
    ]
}

/// The document that a statement inserts, with the number and the time that the
/// database gives it.
pub open spec fn inserted_document(args: Seq<ArgView>, id: i64, time: Seq<char>) -> DocumentRowView {
    DocumentRowView {
        id,
        doc_type: arg_text(args[0]),
        title: arg_option(args[1]),
        doc_json: arg_text(args[2]),
        created_at: time,
    }
}

/// A document after a statement that updates it.
pub open spec fn updated_document(row: DocumentRowView, args: Seq<ArgView>) -> DocumentRowView {
    if row.id == arg_number(args[3]) {
        DocumentRowView {
            id: row.id,
            doc_type: arg_text(args[0]),
            title: arg_option(args[1]),
            doc_json: arg_text(args[2]),
            created_at: row.created_at,
        }
    } else {
        row
    }
}

/// The documents with a number.
pub open spec fn documents_numbered(rows: Seq<DocumentRowView>, id: i64) -> Seq<DocumentRowView> {
    where_true(rows, |row: DocumentRowView| row.id == id)
}

/// Whether a statement that was carried out has changed the documents as it
/// should, and says rightly how many it has changed.
pub open spec fn documents_step(
    before: Tables,
    sql: Seq<char>,
    args: Seq<ArgView>,
    changed: usize,
    after: Tables,
) -> bool {
    let old_rows = before.rows.documents;
    let new_rows = after.rows.documents;
    &&& sql == SAVE_DOCUMENT@ ==> {
        &&& new_rows.len() == old_rows.len() + 1
        &&& new_rows.drop_last() == old_rows
        &&& new_rows.last() == inserted_document(args, after.last_id, new_rows.last().created_at)
        &&& forall|i: int| 0 <= i < old_rows.len() ==> (#[trigger] old_rows[i]).id < after.last_id
    }
    &&& sql == UPDATE_DOCUMENT@ ==> {
        &&& new_rows == old_rows.map_values(|row: DocumentRowView| updated_document(row, args))
        &&& changed == documents_numbered(old_rows, arg_number(args[3])).len()
    }
    &&& sql == DELETE_DOCUMENT@ ==> {
        &&& new_rows == where_true(old_rows, |row: DocumentRowView| row.id != arg_number(args[0]))
        &&& changed == documents_numbered(old_rows, arg_number(args[0])).len()
    }
    &&& sql != SAVE_DOCUMENT@ && sql != UPDATE_DOCUMENT@ && sql != DELETE_DOCUMENT@ ==> new_rows
        == old_rows
}

/// Whether an answer about documents is right.
pub open spec fn documents_answer(
    rows: Rows,
    sql: Seq<char>,
    args: Seq<ArgView>,
    given: Seq<Seq<CellView>>,
) -> bool {
    &&& sql == GET_DOCUMENT@ ==> given == documents_numbered(
        rows.documents,
        arg_number(args[0]),
    ).map_values(|row: DocumentRowView| document_cells(row))
    &&& sql == DOCUMENTS@ ==> given == newest_first(
        rows.documents,
        |row: DocumentRowView| true,
    ).map_values(|row: DocumentRowView| document_summary_cells(row))
    &&& sql == DOCUMENTS_OF_TYPE@ ==> given == newest_first(
        rows.documents,
        |row: DocumentRowView| row.doc_type == arg_text(args[0]),
    ).map_values(|row: DocumentRowView| document_summary_cells(row))
}

// ---------------------------------------------------------------------------
// Templates
// ---------------------------------------------------------------------------

/// The cells of a template in an answer.
pub open spec fn template_cells(row: TemplateRecordView) -> Seq<CellView> {
    seq![
        CellView::Integer(row.id),
        CellView::Text(row.doc_type),
        cell_or_null(row.agency),
        CellView::Text(row.name),
        CellView::Text(row.file_path),
        CellView::Integer(
            if row.is_default {
                1
            } else {
                0
            },
        ),
    ]
}

/// The template that a statement inserts.
pub open spec fn inserted_template(args: Seq<ArgView>, id: i64) -> TemplateRecordView {
    TemplateRecordView {
        id,
        doc_type: arg_text(args[0]),
        agency: arg_option(args[1]),
        name: arg_text(args[2]),
        file_path: arg_text(args[3]),
        is_default: arg_number(args[4]) == 1,
    }
}

/// Whether a template is for a kind and an agency, or for none.
pub open spec fn template_in_scope(
    row: TemplateRecordView,
    doc_type: Seq<char>,
    agency: Option<Seq<char>>,
) -> bool {
    row.doc_type == doc_type && row.agency == agency
}

/// A template that is not the default of a kind and an agency, or of none.
pub open spec fn without_default(
    row: TemplateRecordView,
    doc_type: Seq<char>,
    agency: Option<Seq<char>>,
) -> TemplateRecordView {
    if template_in_scope(row, doc_type, agency) {
        TemplateRecordView { is_default: false, ..row }
    } else {
        row
    }
}

/// Whether a statement that was carried out has changed the templates as it
/// should.
pub open spec fn templates_step(
    before: Tables,
    sql: Seq<char>,
    args: Seq<ArgView>,
    after: Tables,
) -> bool {
    let old_rows = before.rows.templates;
    let new_rows = after.rows.templates;
    &&& sql == CREATE_TEMPLATE@ ==> {
        &&& new_rows == old_rows.push(inserted_template(args, after.last_id))
        &&& forall|i: int| 0 <= i < old_rows.len() ==> (#[trigger] old_rows[i]).id < after.last_id
    }
    &&& sql == UNSET_DEFAULT_OF_AGENCY@ ==> new_rows == old_rows.map_values(
        |row: TemplateRecordView|
            without_default(row, arg_text(args[0]), Some(arg_text(args[1]))),
    )
    &&& sql == UNSET_CENTRAL_DEFAULT@ ==> new_rows == old_rows.map_values(
        |row: TemplateRecordView| without_default(row, arg_text(args[0]), None),
    )
    &&& sql != CREATE_TEMPLATE@ && sql != UNSET_DEFAULT_OF_AGENCY@ && sql
        != UNSET_CENTRAL_DEFAULT@ ==> new_rows == old_rows
}

/// The default templates of a kind and an agency, or of none.
pub open spec fn defaults_in(
    rows: Seq<TemplateRecordView>,
    doc_type: Seq<char>,
    agency: Option<Seq<char>>,
) -> Seq<TemplateRecordView> {
    where_true(
        rows,
        |row: TemplateRecordView| template_in_scope(row, doc_type, agency) && row.is_default,
    )
}

/// Whether a template is for a kind, if one is named, and for an agency, if one
/// is named.
pub open spec fn listed_template(
    doc_type: Option<Seq<char>>,
    agency: Option<Seq<char>>,
) -> spec_fn(TemplateRecordView) -> bool {
    |row: TemplateRecordView|
        {
            &&& doc_type matches Some(t) ==> row.doc_type == t
            &&& agency matches Some(a) ==> row.agency == Some(a)
        }
}

/// The answer that lists the templates for a kind and an agency, the last first.
pub open spec fn template_list(
    rows: Seq<TemplateRecordView>,
    doc_type: Option<Seq<char>>,
    agency: Option<Seq<char>>,
) -> Seq<Seq<CellView>> {
    newest_first(rows, listed_template(doc_type, agency)).map_values(
        |row: TemplateRecordView| template_cells(row),
    )
}

/// Whether an answer about templates is right.
pub open spec fn templates_answer(
    rows: Rows,
    sql: Seq<char>,
    args: Seq<ArgView>,
    given: Seq<Seq<CellView>>,
) -> bool {
    &&& sql == GET_TEMPLATE@ ==> given == where_true(
        rows.templates,
        |row: TemplateRecordView| row.id == arg_number(args[0]),
    ).map_values(|row: TemplateRecordView| template_cells(row))
    &&& sql == DEFAULT_OF_AGENCY@ ==> given == defaults_in(
        rows.templates,
        arg_text(args[0]),
        Some(arg_text(args[1])),
    ).map_values(|row: TemplateRecordView| template_cells(row))
    &&& sql == CENTRAL_DEFAULT@ ==> given == defaults_in(
        rows.templates,
        arg_text(args[0]),
        None,
    ).map_values(|row: TemplateRecordView| template_cells(row))
    &&& sql == TEMPLATES_OF_TYPE_AND_AGENCY@ ==> given == template_list(
        rows.templates,
        Some(arg_text(args[0])),
        Some(arg_text(args[1])),
    )
    &&& sql == TEMPLATES_OF_TYPE@ ==> given == template_list(
        rows.templates,
        Some(arg_text(args[0])),
        None,
    )
    &&& sql == TEMPLATES_OF_AGENCY@ ==> given == template_list(
        rows.templates,
        None,
        Some(arg_text(args[0])),
    )
    &&& sql == TEMPLATES@ ==> given == template_list(rows.templates, None, None)
}

// ---------------------------------------------------------------------------
// Examples
// ---------------------------------------------------------------------------

/// The example that a statement inserts.
pub open spec fn inserted_example(args: Seq<ArgView>, id: i64) -> MemoryRow {
    MemoryRow {
        id,
        doc_type: arg_text(args[0]),
        fields_json: arg_text(args[2]),
        embedding: arg_option(args[7]),
    }
}

/// The examples that were kept last, at most as many as a number says.
pub open spec fn latest(
    rows: Seq<MemoryRow>,
    condition: spec_fn(MemoryRow) -> bool,
    limit: i64,
) -> Seq<MemoryRow> {
    let list = newest_first(rows, condition);
    if limit < 0 || list.len() <= limit {
        list
    } else {
        list.take(limit as int)
    }
}

/// The cells of an example in an answer that gives its fields.
pub open spec fn fields_cells(row: MemoryRow) -> Seq<CellView> {
    seq![CellView::Text(row.fields_json)]
}

/// Whether a statement that was carried out has changed the examples as it
/// should.
pub open spec fn memory_step(
    before: Tables,
    sql: Seq<char>,
    args: Seq<ArgView>,
    after: Tables,
) -> bool {
    let old_rows = before.rows.memory;
    let new_rows = after.rows.memory;
    &&& sql == STORE_MEMORY@ ==> {
        &&& new_rows == old_rows.push(inserted_example(args, after.last_id))
        &&& forall|i: int| 0 <= i < old_rows.len() ==> (#[trigger] old_rows[i]).id < after.last_id
    }
    &&& sql != STORE_MEMORY@ ==> new_rows == old_rows
}

/// Whether an example has a vector, and is of a kind, if one is named.
pub open spec fn has_vector(doc_type: Option<Seq<char>>) -> spec_fn(MemoryRow) -> bool {
    |row: MemoryRow| row.embedding is Some && (doc_type matches Some(t) ==> row.doc_type == t)
}

/// The cells of an example in an answer that gives its vector.
pub open spec fn vector_cells(row: MemoryRow) -> Seq<CellView> {
    seq![CellView::Integer(row.id), cell_or_null(row.embedding)]
}

/// The cells of an example in an answer that gives its kind and its vector.
pub open spec fn kind_and_vector_cells(row: MemoryRow) -> Seq<CellView> {
    seq![CellView::Integer(row.id), CellView::Text(row.doc_type), cell_or_null(row.embedding)]
}

/// Whether an answer about examples is right. Nothing is said of the order in
/// which the vectors come.
pub open spec fn memory_answer(
    rows: Rows,
    sql: Seq<char>,
    args: Seq<ArgView>,
    given: Seq<Seq<CellView>>,
) -> bool {
    &&& sql == MEMORY_FIELDS@ ==> given == where_true(
        rows.memory,
        |row: MemoryRow| row.id == arg_number(args[0]),
    ).map_values(|row: MemoryRow| fields_cells(row))
    &&& sql == RECENT_OF_TYPE@ ==> given == latest(
        rows.memory,
        |row: MemoryRow| row.doc_type == arg_text(args[0]),
        arg_number(args[1]),
    ).map_values(|row: MemoryRow| fields_cells(row))
    &&& sql == RECENT@ ==> given == latest(
        rows.memory,
        |row: MemoryRow| true,
        arg_number(args[0]),
    ).map_values(|row: MemoryRow| fields_cells(row))
    &&& sql == EMBEDDINGS_OF_TYPE@ ==> exists|list: Seq<MemoryRow>| #[trigger]
        same_rows(list, where_true(rows.memory, has_vector(Some(arg_text(args[0]))))) && given
            == list.map_values(|row: MemoryRow| vector_cells(row))
    &&& sql == EMBEDDINGS@ ==> exists|list: Seq<MemoryRow>| #[trigger]
        same_rows(list, where_true(rows.memory, has_vector(None))) && given == list.map_values(
            |row: MemoryRow| vector_cells(row),
        )
    &&& sql == VECTORS@ ==> exists|list: Seq<MemoryRow>| #[trigger]
        same_rows(list, where_true(rows.memory, has_vector(None))) && given == list.map_values(
            |row: MemoryRow| kind_and_vector_cells(row),
        )
}

// ---------------------------------------------------------------------------
// Histories
// ---------------------------------------------------------------------------

/// Whether there are no rows.
pub open spec fn no_rows(rows: Rows) -> bool {
    &&& rows.memory.len() == 0
    &&& rows.templates.len() == 0
    &&& rows.documents.len() == 0
    &&& rows.general.documents.len() == 0
    &&& rows.general.pages.len() == 0
    &&& rows.general.blocks.len() == 0
}

/// Whether the database does what an event says that it was told, and whether
/// its answer is right. A statement that is not carried out changes nothing.
pub open spec fn obeys(before: Tables, event: Event, after: Tables) -> bool {
    match event {
        Event::Opened(path) => {
            &&& after == before
            &&& path is None ==> no_rows(after.rows)
        },
        Event::Execute { sql, args, changed } => match changed {
            Err(_) => after == before,
            Ok(n) => {
                &&& after.saved == before.saved
                &&& added_columns().contains(sql) ==> after.rows == before.rows
                &&& documents_step(before, sql, args, n, after)
                &&& templates_step(before, sql, args, after)
                &&& memory_step(before, sql, args, after)
                &&& general_step(before.rows.general, sql, args, after.last_id, after.rows.general)
            },
        },
        Event::Query { sql, args, rows } => {
            &&& after == before
            &&& rows matches Ok(given) ==> {
                &&& documents_answer(before.rows, sql, args, given)
                &&& templates_answer(before.rows, sql, args, given)
                &&& memory_answer(before.rows, sql, args, given)
                &&& general_answer(before.rows.general, sql, args, given)
            }
        },
        Event::LastInsertRowid(id) => after == before && id == before.last_id,
        Event::Batch { sql, done } => {
            &&& sql == BEGIN@ && done is Ok ==> after.rows == before.rows && after.saved == Some(
                before.rows,
            )
            &&& sql == COMMIT@ && done is Ok ==> after.rows == before.rows && after.saved is None
            &&& sql == ROLLBACK@ && done is Ok ==> before.saved == Some(after.rows) && after.saved is None
            &&& sql == SCHEMA@ ==> after == before
            &&& done is Err || (sql != BEGIN@ && sql != COMMIT@ && sql != ROLLBACK@) ==> after == before
        },
    }
}

/// Whether `states` are what the database held before, between and after the
/// events of a history, each of which it obeyed.
pub open spec fn ran(states: Seq<Tables>, history: Seq<Event>) -> bool {
    &&& states.len() == history.len() + 1
    &&& forall|i: int|
        0 <= i < history.len() ==> obeys(states[i], #[trigger] history[i], states[i + 1])
}

/// What the database holds after a part of the history.
pub open spec fn after_events(states: Seq<Tables>, n: nat) -> Rows {
    states[n as int].rows
}

// ---------------------------------------------------------------------------
// Reading answers
// ---------------------------------------------------------------------------

/// Rows that each have their columns have them all together.
proof fn lemma_no_faults(rows: Seq<Seq<CellView>>, shape: Seq<ColumnView>)
    requires
        forall|i: int| 0 <= i < rows.len() ==> row_fault(#[trigger] rows[i], shape) is None,
    ensures
        rows_fault(rows, shape) is None,
    decreases rows.len(),
{
    if rows.len() > 0 {
        let d = rows.drop_last();
        assert forall|i: int| 0 <= i < d.len() implies row_fault(#[trigger] d[i], shape) is None by {
            assert(d[i] == rows[i]);
        }
        lemma_no_faults(d, shape);
        assert(row_fault(rows[rows.len() - 1], shape) is None);
    }
}

/// What is read from an answer whose rows all have their columns.
pub proof fn lemma_all_read<R: Record, T>(
    list: Seq<T>,
    cells: spec_fn(T) -> Seq<CellView>,
    meaning: spec_fn(T) -> R::V,
)
    requires
        forall|i: int|
            0 <= i < list.len() ==> {
                &&& row_fault(cells(#[trigger] list[i]), R::shape()) is None
                &&& R::of_row(cells(list[i])) == meaning(list[i])
            },
    ensures
        all_of::<R>(Ok(list.map_values(cells))) == Ok::<Seq<R::V>, Fault>(
            list.map_values(meaning),
        ),
{
    let rows = list.map_values(cells);
    assert forall|i: int| 0 <= i < rows.len() implies row_fault(
        #[trigger] rows[i],
        R::shape(),
    ) is None by {
        assert(rows[i] == cells(list[i]));
    }
    lemma_no_faults(rows, R::shape());
    assert(Seq::new(rows.len(), |i: int| R::of_row(rows[i])) =~= list.map_values(meaning));
}

/// Lists of the same rows are equally long.
pub proof fn lemma_same_rows_len<R>(a: Seq<R>, b: Seq<R>)
    requires
        same_rows(a, b),
    ensures
        a.len() == b.len(),
{
    broadcast use vstd::seq_lib::group_to_multiset_ensures;

    assert(a.len() == a.to_multiset().len());
    assert(b.len() == b.to_multiset().len());
}

/// A row that lists of the same rows hold is in both.
pub proof fn lemma_same_rows_members<R>(a: Seq<R>, b: Seq<R>, i: int)
    requires
        same_rows(a, b),
        0 <= i < a.len(),
    ensures
        b.contains(a[i]),
        a.len() == b.len(),
{
    broadcast use vstd::seq_lib::group_to_multiset_ensures;

    assert(a.contains(a[i]));
    assert(a.to_multiset().contains(a[i]));
    assert(b.to_multiset().contains(a[i]));
    lemma_same_rows_len(a, b);
}

/// Rows that stand in their order already are arranged in one way only.
pub proof fn lemma_arranged_once<R>(
    list: Seq<R>,
    rows: Seq<R>,
    precedes: spec_fn(R, R) -> bool,
)
    requires
        arranged(list, rows, precedes),
        forall|i: int, j: int|
            0 <= i < j < rows.len() ==> precedes(#[trigger] rows[i], #[trigger] rows[j]),
    ensures
        list == rows,
    decreases rows.len(),
{
    broadcast use vstd::seq_lib::group_to_multiset_ensures;

    assert(list.len() == list.to_multiset().len());
    assert(rows.len() == rows.to_multiset().len());
    let n = rows.len() - 1;
    if n >= 0 {
        lemma_same_rows_members(rows, list, n);
        lemma_same_rows_members(list, rows, n);
        let k = choose|k: int| 0 <= k < list.len() && list[k] == rows[n];
        let m = choose|m: int| 0 <= m < rows.len() && rows[m] == list[n];
        if m < n {
            assert(precedes(rows[m], rows[n]));
            if k < n {
                assert(!precedes(list[n], list[k]));
            }
        }
        assert(list[n] == rows[n]);
        let a = list.drop_last();
        let b = rows.drop_last();
        assert(a.push(list[n]) =~= list);
        assert(b.push(rows[n]) =~= rows);
        assert(a.to_multiset() =~= list.to_multiset().remove(list[n])) by {
            assert(list.remove(n) =~= a);
        }
        assert(b.to_multiset() =~= rows.to_multiset().remove(rows[n])) by {
            assert(rows.remove(n) =~= b);
        }
        assert forall|i: int, j: int| 0 <= i < j < a.len() implies !precedes(
            #[trigger] a[j],
            #[trigger] a[i],
        ) by {
            assert(a[j] == list[j] && a[i] == list[i]);
        }
        assert forall|i: int, j: int| 0 <= i < j < b.len() implies precedes(
            #[trigger] b[i],
            #[trigger] b[j],
        ) by {
            assert(b[j] == rows[j] && b[i] == rows[i]);
        }
        lemma_arranged_once(a, b, precedes);
    } else {
        assert(list =~= rows);
    }
}

/// Conditions that agree pick out the same rows.
pub proof fn lemma_where_true_same<R>(
    rows: Seq<R>,
    one: spec_fn(R) -> bool,
    other: spec_fn(R) -> bool,
)
    requires
        forall|r: R| #[trigger] one(r) == other(r),
    ensures
        where_true(rows, one) == where_true(rows, other),
    decreases rows.len(),
{
    if rows.len() > 0 {
        lemma_where_true_same(rows.drop_last(), one, other);
        assert(one(rows.last()) == other(rows.last()));
    }
}

/// The rows that a condition picks out of two lists, one behind the other.
pub proof fn lemma_where_true_joined<R>(a: Seq<R>, b: Seq<R>, condition: spec_fn(R) -> bool)
    ensures
        where_true(a + b, condition) == where_true(a, condition) + where_true(b, condition),
    decreases b.len(),
{
    if b.len() == 0 {
        assert(a + b =~= a);
        assert(where_true(b, condition) =~= Seq::<R>::empty());
    } else {
        assert((a + b).drop_last() =~= a + b.drop_last());
        assert((a + b).last() == b.last());
        lemma_where_true_joined(a, b.drop_last(), condition);
    }
    assert(where_true(a + b, condition) =~= where_true(a, condition) + where_true(b, condition));
}

/// A condition that holds of all rows leaves none out.
pub proof fn lemma_where_true_all<R>(rows: Seq<R>, condition: spec_fn(R) -> bool)
    requires
        forall|i: int| 0 <= i < rows.len() ==> condition(#[trigger] rows[i]),
    ensures
        where_true(rows, condition) == rows,
    decreases rows.len(),
{
    if rows.len() > 0 {
        let before = rows.drop_last();
        assert forall|i: int| 0 <= i < before.len() implies condition(#[trigger] before[i]) by {
            assert(before[i] == rows[i]);
        }
        lemma_where_true_all(before, condition);
        assert(condition(rows[rows.len() - 1]));
    }
    assert(where_true(rows, condition) =~= rows);
}

/// A row that a condition picks out is one of the rows.
pub proof fn lemma_where_true_is_row<R>(rows: Seq<R>, condition: spec_fn(R) -> bool, m: int) -> (k:
    int)
    requires
        0 <= m < where_true(rows, condition).len(),
    ensures
        0 <= k < rows.len(),
        rows[k] == where_true(rows, condition)[m],
    decreases rows.len(),
{
    let before = where_true(rows.drop_last(), condition);
    if m < before.len() {
        assert(where_true(rows, condition)[m] == before[m]);
        lemma_where_true_is_row(rows.drop_last(), condition, m)
    } else {
        rows.len() - 1
    }
}

/// A row that a condition holds of is picked out by it.
pub proof fn lemma_row_is_where_true<R>(rows: Seq<R>, condition: spec_fn(R) -> bool, k: int) -> (m:
    int)
    requires
        0 <= k < rows.len(),
        condition(rows[k]),
    ensures
        0 <= m < where_true(rows, condition).len(),
        where_true(rows, condition)[m] == rows[k],
    decreases rows.len(),
{
    let before = where_true(rows.drop_last(), condition);
    if k == rows.len() - 1 {
        before.len() as int
    } else {
        let m = lemma_row_is_where_true(rows.drop_last(), condition, k);
        assert(where_true(rows, condition)[m] == before[m]);
        m
    }
}

/// All rows that a condition picks out meet it.
pub proof fn lemma_where_true_holds<R>(rows: Seq<R>, condition: spec_fn(R) -> bool)
    ensures
        forall|i: int|
            0 <= i < where_true(rows, condition).len() ==> condition(
                #[trigger] where_true(rows, condition)[i],
            ),
    decreases rows.len(),
{
    if rows.len() > 0 {
        lemma_where_true_holds(rows.drop_last(), condition);
        let before = where_true(rows.drop_last(), condition);
        assert forall|i: int| 0 <= i < where_true(rows, condition).len() implies condition(
            #[trigger] where_true(rows, condition)[i],
        ) by {
            if i < before.len() {
                assert(where_true(rows, condition)[i] == before[i]);
            }
        }
    }
}

// ---------------------------------------------------------------------------
// Laws of saved documents
// ---------------------------------------------------------------------------

pub proof fn lemma_where_true_empty<R>(rows: Seq<R>, condition: spec_fn(R) -> bool)
    requires
        forall|i: int| 0 <= i < rows.len() ==> !condition(#[trigger] rows[i]),
    ensures
        where_true(rows, condition) == Seq::<R>::empty(),
    decreases rows.len(),
{
    if rows.len() > 0 {
        let d = rows.drop_last();
        assert forall|i: int| 0 <= i < d.len() implies !condition(#[trigger] d[i]) by {
            assert(d[i] == rows[i]);
        }
        lemma_where_true_empty(d, condition);
        assert(!condition(rows[rows.len() - 1]));
    }
}

/// The answer to the question for a document, if there is exactly one with its
/// number.
proof fn lemma_document_answer(row: DocumentRowView, doc: JsonView)
    requires
        parsed_json(row.doc_json) == Some(doc),
    ensures
        document_option(Ok(seq![document_cells(row)])) == Ok::<Option<DocumentView>, Fault>(
            Some(
                DocumentView {
                    id: row.id,
                    doc_type: row.doc_type,
                    title: row.title,
                    doc_json: doc,
                    created_at: row.created_at,
                },
            ),
        ),
{
    let cells = document_cells(row);
    let shape = <DocumentRow as Record>::shape();
    assert(column_fits(cells, shape, 0));
    assert(column_fits(cells, shape, 1));
    assert(column_fits(cells, shape, 2));
    assert(column_fits(cells, shape, 3));
    assert(column_fits(cells, shape, 4));
    assert(row_fault_from(cells, shape, 5) is None);
    assert(row_fault_from(cells, shape, 4) is None);
    assert(row_fault_from(cells, shape, 3) is None);
    assert(row_fault_from(cells, shape, 2) is None);
    assert(row_fault_from(cells, shape, 1) is None);
    assert(row_fault_from(cells, shape, 0) is None);
}

/// The document with a number, if there is one.
pub open spec fn has_document(rows: Rows, row: DocumentRowView) -> bool {
    documents_numbered(rows.documents, row.id) == seq![row]
}

/// What a saved document is read back as.
pub open spec fn document_as_read(row: DocumentRowView, doc: JsonView) -> DocumentView {
    DocumentView {
        id: row.id,
        doc_type: row.doc_type,
        title: row.title,
        doc_json: doc,
        created_at: row.created_at,
    }
}

/// After a document has been saved, there is one document with the number that
/// it was given, and it is what was saved.
pub proof fn law_saved_document_is_there(
    states: Seq<Tables>,
    before: Seq<Event>,
    after: Seq<Event>,
    doc_type: Seq<char>,
    title: Option<Seq<char>>,
    doc: JsonView,
    id: i64,
) -> (row: DocumentRowView)
    requires
        ran(states, after),
        inserted(
            before,
            after,
            SAVE_DOCUMENT@,
            seq![ArgView::Text(doc_type), text_arg(title), ArgView::Text(json_text(doc))],
            Ok(id),
        ),
    ensures
        has_document(after_events(states, after.len()), row),
        row.id == id,
        row.doc_type == doc_type,
        row.title == title,
        row.doc_json == json_text(doc),
{
    let n = before.len() as int;
    let args = seq![ArgView::Text(doc_type), text_arg(title), ArgView::Text(json_text(doc))];
    assert(after[n] == after.drop_last().last());
    assert(after[n + 1] == after.last());
    assert(obeys(states[n], after[n], states[n + 1]));
    assert(obeys(states[n + 1], after[n + 1], states[n + 2]));
    let old_rows = states[n].rows.documents;
    let rows = states[n + 1].rows.documents;
    let row = rows.last();
    assert(states[n + 1].last_id == id);
    assert(row == inserted_document(args, id, row.created_at));
    let condition = |r: DocumentRowView| r.id == id;
    lemma_where_true_empty(old_rows, condition);
    assert(documents_numbered(rows, id) =~= seq![row]);
    row
}

/// A document is read back as it is kept.
pub proof fn law_document_is_read_back(
    states: Seq<Tables>,
    before: Seq<Event>,
    after: Seq<Event>,
    row: DocumentRowView,
    doc: JsonView,
)
    requires
        ran(states, after),
        has_document(after_events(states, before.len()), row),
        parsed_json(row.doc_json) == Some(doc),
        asked(before, after, GET_DOCUMENT@, seq![ArgView::Integer(row.id)]),
        answer(after) is Ok,
    ensures
        document_option(answer(after)) == Ok::<Option<DocumentView>, Fault>(
            Some(document_as_read(row, doc)),
        ),
{
    let n = before.len() as int;
    assert(after[n] == after.last());
    assert(obeys(states[n], after[n], states[n + 1]));
    let given = answer(after)->Ok_0;
    let list = documents_numbered(states[n].rows.documents, row.id);
    assert(list == seq![row]);
    assert(given =~= seq![document_cells(row)]);
    lemma_document_answer(row, doc);
}

/// What a condition says of rows that are changed without changing that.
proof fn lemma_where_true_map<R>(
    rows: Seq<R>,
    change: spec_fn(R) -> R,
    condition: spec_fn(R) -> bool,
)
    requires
        forall|r: R| condition(#[trigger] change(r)) == condition(r),
    ensures
        where_true(rows.map_values(change), condition) == where_true(rows, condition).map_values(
            change,
        ),
    decreases rows.len(),
{
    let mapped = rows.map_values(change);
    if rows.len() > 0 {
        lemma_where_true_map(rows.drop_last(), change, condition);
        assert(mapped.drop_last() =~= rows.drop_last().map_values(change));
        assert(mapped.last() == change(rows.last()));
        assert(condition(change(rows.last())) == condition(rows.last()));
    }
    assert(where_true(mapped, condition) =~= where_true(rows, condition).map_values(change));
}

/// Rows of which one condition holds, by another condition that does not leave
/// any of them out.
proof fn lemma_where_true_twice<R>(
    rows: Seq<R>,
    kept: spec_fn(R) -> bool,
    condition: spec_fn(R) -> bool,
)
    requires
        forall|r: R| #[trigger] condition(r) ==> kept(r),
    ensures
        where_true(where_true(rows, kept), condition) == where_true(rows, condition),
    decreases rows.len(),
{
    if rows.len() > 0 {
        lemma_where_true_twice(rows.drop_last(), kept, condition);
        let last = rows.last();
        let before = where_true(rows.drop_last(), kept);
        if kept(last) {
            assert(before.push(last).drop_last() =~= before);
        } else {
            assert(!condition(last));
        }
    }
}

/// A row that a condition holds of is one of the rows.
proof fn lemma_where_true_member<R>(rows: Seq<R>, condition: spec_fn(R) -> bool) -> (i: int)
    requires
        where_true(rows, condition).len() > 0,
    ensures
        0 <= i < rows.len(),
        condition(rows[i]),
        rows[i] == where_true(rows, condition)[0],
    decreases rows.len(),
{
    let before = where_true(rows.drop_last(), condition);
    if before.len() > 0 {
        lemma_where_true_member(rows.drop_last(), condition)
    } else {
        rows.len() - 1
    }
}

/// The rows that a condition and not another holds of.
pub proof fn lemma_where_true_without<R>(
    rows: Seq<R>,
    kept: spec_fn(R) -> bool,
    condition: spec_fn(R) -> bool,
)
    requires
        forall|r: R| #[trigger] condition(r) ==> !kept(r),
    ensures
        where_true(where_true(rows, kept), condition) == Seq::<R>::empty(),
    decreases rows.len(),
{
    if rows.len() > 0 {
        lemma_where_true_without(rows.drop_last(), kept, condition);
        let last = rows.last();
        let before = where_true(rows.drop_last(), kept);
        if kept(last) {
            assert(before.push(last).drop_last() =~= before);
            assert(!condition(last));
        }
    }
}

/// A document that was replaced is what it was replaced by, and keeps the time
/// of its creation.
pub proof fn law_updated_document_is_there(
    states: Seq<Tables>,
    before: Seq<Event>,
    after: Seq<Event>,
    row: DocumentRowView,
    doc_type: Seq<char>,
    title: Option<Seq<char>>,
    doc: JsonView,
)
    requires
        ran(states, after),
        has_document(after_events(states, before.len()), row),
        executed(
            before,
            after,
            UPDATE_DOCUMENT@,
            seq![
                ArgView::Text(doc_type),
                text_arg(title),
                ArgView::Text(json_text(doc)),
                ArgView::Integer(row.id),
            ],
        ),
        changed_rows(after) is Ok,
    ensures
        any_result(changed_rows(after)) == Ok::<bool, Fault>(true),
        has_document(
            after_events(states, after.len()),
            DocumentRowView {
                id: row.id,
                doc_type,
                title,
                doc_json: json_text(doc),
                created_at: row.created_at,
            },
        ),
{
    let n = before.len() as int;
    let args = seq![
        ArgView::Text(doc_type),
        text_arg(title),
        ArgView::Text(json_text(doc)),
        ArgView::Integer(row.id),
    ];
    assert(after[n] == after.last());
    assert(obeys(states[n], after[n], states[n + 1]));
    let rows = states[n].rows.documents;
    let change = |r: DocumentRowView| updated_document(r, args);
    let condition = |r: DocumentRowView| r.id == row.id;
    lemma_where_true_map(rows, change, condition);
    let found = documents_numbered(rows, row.id);
    assert(found == seq![row]);
    assert(found.map_values(change) =~= seq![updated_document(row, args)]);
}

/// There is no document with a number.
pub open spec fn lacks_document(rows: Rows, id: i64) -> bool {
    documents_numbered(rows.documents, id).len() == 0
}

/// A document that was deleted is gone; and that there was one is said rightly.
pub proof fn law_deleted_document_is_gone(
    states: Seq<Tables>,
    before: Seq<Event>,
    after: Seq<Event>,
    id: i64,
)
    requires
        ran(states, after),
        executed(before, after, DELETE_DOCUMENT@, seq![ArgView::Integer(id)]),
        changed_rows(after) is Ok,
    ensures
        lacks_document(after_events(states, after.len()), id),
        any_result(changed_rows(after)) == Ok::<bool, Fault>(
            !lacks_document(after_events(states, before.len()), id),
        ),
{
    let n = before.len() as int;
    assert(after[n] == after.last());
    assert(obeys(states[n], after[n], states[n + 1]));
    let rows = states[n].rows.documents;
    lemma_where_true_without(
        rows,
        |r: DocumentRowView| r.id != id,
        |r: DocumentRowView| r.id == id,
    );
}

/// A document that is not there is neither found nor replaced.
pub proof fn law_missing_document_is_not_found(
    states: Seq<Tables>,
    before: Seq<Event>,
    after: Seq<Event>,
    id: i64,
)
    requires
        ran(states, after),
        lacks_document(after_events(states, before.len()), id),
        asked(before, after, GET_DOCUMENT@, seq![ArgView::Integer(id)]),
        answer(after) is Ok,
    ensures
        document_option(answer(after)) == Ok::<Option<DocumentView>, Fault>(None),
{
    let n = before.len() as int;
    assert(after[n] == after.last());
    assert(obeys(states[n], after[n], states[n + 1]));
}

/// What a document is in a list.
pub open spec fn document_in_list(row: DocumentRowView) -> DocumentSummaryView {
    DocumentSummaryView {
        id: row.id,
        doc_type: row.doc_type,
        title: row.title,
        created_at: row.created_at,
    }
}

/// What is read from the cells of a document in a list.
proof fn lemma_summary_fits(row: DocumentRowView)
    ensures
        row_fault(document_summary_cells(row), <DocumentSummary as Record>::shape()) is None,
        <DocumentSummary as Record>::of_row(document_summary_cells(row)) == document_in_list(row),
{
    let cells = document_summary_cells(row);
    let shape = <DocumentSummary as Record>::shape();
    assert(column_fits(cells, shape, 0));
    assert(column_fits(cells, shape, 1));
    assert(column_fits(cells, shape, 2));
    assert(column_fits(cells, shape, 3));
    assert(row_fault_from(cells, shape, 4) is None);
    assert(row_fault_from(cells, shape, 3) is None);
    assert(row_fault_from(cells, shape, 2) is None);
    assert(row_fault_from(cells, shape, 1) is None);
    assert(row_fault_from(cells, shape, 0) is None);
}

/// Saved documents are listed as they are kept, the last first: all of them, or
/// all of a kind.
pub proof fn law_documents_are_listed(
    states: Seq<Tables>,
    before: Seq<Event>,
    after: Seq<Event>,
    doc_type: Option<Seq<char>>,
)
    requires
        ran(states, after),
        match doc_type {
            Some(t) => asked(before, after, DOCUMENTS_OF_TYPE@, seq![ArgView::Text(t)]),
            None => asked(before, after, DOCUMENTS@, Seq::empty()),
        },
        answer(after) is Ok,
    ensures
        all_of::<DocumentSummary>(answer(after)) == Ok::<Seq<DocumentSummaryView>, Fault>(
            newest_first(
                after_events(states, before.len()).documents,
                |row: DocumentRowView| doc_type matches Some(t) ==> row.doc_type == t,
            ).map_values(|row: DocumentRowView| document_in_list(row)),
        ),
{
    let n = before.len() as int;
    assert(after[n] == after.last());
    assert(obeys(states[n], after[n], states[n + 1]));
    let rows = states[n].rows.documents;
    let condition = |row: DocumentRowView| doc_type matches Some(t) ==> row.doc_type == t;
    let cells = |row: DocumentRowView| document_summary_cells(row);
    let meaning = |row: DocumentRowView| document_in_list(row);
    let list = newest_first(rows, condition);
    match doc_type {
        Some(t) => {
            let args = seq![ArgView::Text(t)];
            let picked = |row: DocumentRowView| row.doc_type == arg_text(args[0]);
            lemma_where_true_same(rows, condition, picked);
        },
        None => {
            lemma_where_true_same(rows, condition, |row: DocumentRowView| true);
        },
    }
    assert(answer(after)->Ok_0 =~= list.map_values(cells));
    assert forall|i: int| 0 <= i < list.len() implies row_fault(
        cells(#[trigger] list[i]),
        <DocumentSummary as Record>::shape(),
    ) is None && <DocumentSummary as Record>::of_row(cells(list[i])) == meaning(list[i]) by {
        lemma_summary_fits(list[i]);
    }
    lemma_all_read::<DocumentSummary, DocumentRowView>(list, cells, meaning);
}

/// Whether an event replaces or deletes a document, or takes back what was done
/// in a transaction.
pub open spec fn touches_document(event: Event, id: i64) -> bool {
    match event {
        Event::Execute { sql, args, changed } => {
            ||| sql == UPDATE_DOCUMENT@ && arg_number(args[3]) == id
            ||| sql == DELETE_DOCUMENT@ && arg_number(args[0]) == id
        },
        Event::Batch { sql, done } => sql == ROLLBACK@,
        _ => false,
    }
}

/// A document stays as it is until it is replaced or deleted: nothing that is
/// done with other documents, with templates, examples or general documents
/// changes it.
pub proof fn law_document_stays(
    states: Seq<Tables>,
    history: Seq<Event>,
    from: int,
    to: int,
    row: DocumentRowView,
)
    requires
        ran(states, history),
        0 <= from <= to <= history.len(),
        has_document(states[from].rows, row),
        forall|k: int| from <= k < to ==> !touches_document(#[trigger] history[k], row.id),
    ensures
        has_document(states[to].rows, row),
    decreases to - from,
{
    if from < to {
        law_document_stays(states, history, from, to - 1, row);
        let before = states[to - 1];
        let after = states[to];
        let event = history[to - 1];
        assert(obeys(before, event, after));
        assert(!touches_document(event, row.id));
        let rows = before.rows.documents;
        let condition = |r: DocumentRowView| r.id == row.id;
        assert(where_true(rows, condition) == seq![row]);
        match event {
            Event::Execute { sql, args, changed } => {
                if changed is Ok {
                    if sql == SAVE_DOCUMENT@ {
                        let i = lemma_where_true_member(rows, condition);
                        assert(rows[i].id < after.last_id);
                        assert(after.rows.documents.last().id == after.last_id);
                    } else if sql == UPDATE_DOCUMENT@ {
                        let change = |r: DocumentRowView| updated_document(r, args);
                        lemma_where_true_map(rows, change, condition);
                        assert(seq![row].map_values(change) =~= seq![row]);
                    } else if sql == DELETE_DOCUMENT@ {
                        let kept = |r: DocumentRowView| r.id != arg_number(args[0]);
                        lemma_where_true_twice(rows, kept, condition);
                    }
                }
            },
            _ => {},
        }
    }
}

// ---------------------------------------------------------------------------
// Laws of templates
// ---------------------------------------------------------------------------

/// Whether no kind has two defaults for an agency, or for none.
pub open spec fn one_default(rows: Seq<TemplateRecordView>) -> bool {
    forall|i: int, j: int|
        0 <= i < j < rows.len() && (#[trigger] rows[i]).is_default && (#[trigger] rows[j]).is_default
            ==> !(rows[i].doc_type == rows[j].doc_type && rows[i].agency == rows[j].agency)
}

/// The statement that unsets the default of a scope does so.
proof fn lemma_unset(
    before: Tables,
    event: Event,
    after: Tables,
    doc_type: Seq<char>,
    agency: Option<Seq<char>>,
)
    requires
        obeys(before, event, after),
        event matches Event::Execute { sql, args, changed } && sql == unset_sql(agency) && args
            == scope_args(doc_type, agency) && changed is Ok,
    ensures
        after.rows.templates == before.rows.templates.map_values(
            |row: TemplateRecordView| without_default(row, doc_type, agency),
        ),
{
    let rows = before.rows.templates;
    let f = |row: TemplateRecordView| without_default(row, doc_type, agency);
    match agency {
        Some(a) => {
            let args = scope_args(doc_type, agency);
            assert(after.rows.templates =~= rows.map_values(f));
        },
        None => {
            assert(after.rows.templates =~= rows.map_values(f));
        },
    }
}

/// What comes of the statement that inserts a template.
proof fn lemma_template_inserted(
    states: Seq<Tables>,
    before: Seq<Event>,
    after: Seq<Event>,
    args: Seq<ArgView>,
    result: Result<i64, Fault>,
)
    requires
        ran(states, after),
        inserted(before, after, CREATE_TEMPLATE@, args, result),
    ensures
        match result {
            Ok(id) => after_events(states, after.len()).templates == after_events(
                states,
                before.len(),
            ).templates.push(inserted_template(args, id)),
            Err(_) => after_events(states, after.len()).templates == after_events(
                states,
                before.len(),
            ).templates,
        },
{
    let n = before.len() as int;
    match result {
        Ok(id) => {
            assert(after[n] == after.drop_last().last());
            assert(after[n + 1] == after.last());
            assert(obeys(states[n], after[n], states[n + 1]));
            assert(obeys(states[n + 1], after[n + 1], states[n + 2]));
        },
        Err(_) => {
            assert(after[n] == after.last());
            assert(obeys(states[n], after[n], states[n + 1]));
        },
    }
}

/// A part of a history in which the database obeys.
pub proof fn lemma_ran_part(states: Seq<Tables>, history: Seq<Event>, n: int)
    requires
        ran(states, history),
        0 <= n <= history.len(),
    ensures
        ran(states.take(n + 1), history.take(n)),
{
    let part = history.take(n);
    let held = states.take(n + 1);
    assert forall|i: int| 0 <= i < part.len() implies obeys(
        held[i],
        #[trigger] part[i],
        held[i + 1],
    ) by {
        assert(obeys(states[i], history[i], states[i + 1]));
    }
}

/// Registering a template never leaves a kind with two defaults for an agency,
/// or for none.
pub proof fn law_one_default_at_most(
    states: Seq<Tables>,
    before: Seq<Event>,
    after: Seq<Event>,
    record: NewTemplateRecord<'_>,
    result: Result<i64, Fault>,
)
    requires
        ran(states, after),
        template_created(before, after, record, result),
        one_default(after_events(states, before.len()).templates),
    ensures
        one_default(after_events(states, after.len()).templates),
{
    let n = before.len() as int;
    let rows = states[n].rows.templates;
    if !record.is_default {
        lemma_template_inserted(states, before, after, template_args(record), result);
        let now = after_events(states, after.len()).templates;
        if result is Ok {
            assert(now == rows.push(inserted_template(template_args(record), result->Ok_0)));
            assert(!now.last().is_default);
            assert forall|i: int, j: int|
                0 <= i < j < now.len() && (#[trigger] now[i]).is_default && (
                #[trigger] now[j]).is_default implies !(now[i].doc_type == now[j].doc_type
                && now[i].agency == now[j].agency) by {
                assert(j < rows.len());
                assert(now[i] == rows[i] && now[j] == rows[j]);
            }
        }
    } else {
        let scope = opt_str(record.agency);
        let between = after.take(n + 1);
        assert(between.last() == after[n]);
        assert(obeys(states[n], after[n], states[n + 1]));
        let f = |row: TemplateRecordView| without_default(row, record.doc_type@, scope);
        match changed_rows(between) {
            Err(_) => {
                assert(after == between);
            },
            Ok(_) => {
                lemma_unset(states[n], after[n], states[n + 1], record.doc_type@, scope);
                let cleared = states[n + 1].rows.templates;
                lemma_template_inserted(states, between, after, template_args(record), result);
                let now = after_events(states, after.len()).templates;
                assert forall|i: int, j: int|
                    0 <= i < j < now.len() && (#[trigger] now[i]).is_default && (
                    #[trigger] now[j]).is_default implies !(now[i].doc_type == now[j].doc_type
                    && now[i].agency == now[j].agency) by {
                    assert(i < cleared.len());
                    assert(now[i] == cleared[i]);
                    assert(cleared[i] == f(rows[i]));
                    if j < cleared.len() {
                        assert(now[j] == cleared[j]);
                        assert(cleared[j] == f(rows[j]));
                    } else {
                        assert(now[j] == inserted_template(template_args(record), result->Ok_0));
                    }
                }
            },
        }
    }
}

/// Registering a template adds it behind the others if it succeeds, and leaves
/// the others as they were; only where it is to be the default do those of its
/// kind and agency stop being the default, and nothing else of them changes.
pub proof fn law_other_templates_stay(
    states: Seq<Tables>,
    before: Seq<Event>,
    after: Seq<Event>,
    record: NewTemplateRecord<'_>,
    result: Result<i64, Fault>,
)
    requires
        ran(states, after),
        template_created(before, after, record, result),
    ensures
        ({
            let was = after_events(states, before.len()).templates;
            let now = after_events(states, after.len()).templates;
            &&& match result {
                Ok(id) => now.len() == was.len() + 1 && now.last() == registered(record, id),
                Err(_) => now.len() == was.len(),
            }
            &&& forall|i: int|
                0 <= i < was.len() && !(record.is_default && template_in_scope(
                    was[i],
                    record.doc_type@,
                    opt_str(record.agency),
                )) ==> #[trigger] now[i] == was[i]
            &&& forall|i: int|
                0 <= i < was.len() ==> #[trigger] now[i] == (TemplateRecordView {
                    is_default: now[i].is_default,
                    ..was[i]
                })
        }),
{
    let n = before.len() as int;
    let rows = states[n].rows.templates;
    let scope = opt_str(record.agency);
    let args = template_args(record);
    if result is Ok {
        assert(inserted_template(args, result->Ok_0) == registered(record, result->Ok_0));
    }
    if !record.is_default {
        lemma_template_inserted(states, before, after, args, result);
    } else {
        let between = after.take(n + 1);
        assert(between.last() == after[n]);
        assert(obeys(states[n], after[n], states[n + 1]));
        let f = |row: TemplateRecordView| without_default(row, record.doc_type@, scope);
        match changed_rows(between) {
            Err(_) => {
                assert(after == between);
            },
            Ok(_) => {
                lemma_unset(states[n], after[n], states[n + 1], record.doc_type@, scope);
                lemma_template_inserted(states, between, after, args, result);
                let cleared = states[n + 1].rows.templates;
                let now = after_events(states, after.len()).templates;
                assert forall|i: int| 0 <= i < rows.len() implies #[trigger] now[i]
                    == without_default(rows[i], record.doc_type@, scope) by {
                    assert(now[i] == cleared[i]);
                    assert(cleared[i] == f(rows[i]));
                }
            },
        }
    }
}

/// The template that a registration adds.
pub open spec fn registered(record: NewTemplateRecord<'_>, id: i64) -> TemplateRecordView {
    TemplateRecordView {
        id,
        doc_type: record.doc_type@,
        agency: opt_str(record.agency),
        name: record.name@,
        file_path: record.file_path@,
        is_default: record.is_default,
    }
}

/// No template of a scope is the default once the default of the scope is unset.
proof fn lemma_no_default_left(
    rows: Seq<TemplateRecordView>,
    doc_type: Seq<char>,
    agency: Option<Seq<char>>,
)
    ensures
        defaults_in(
            rows.map_values(|row: TemplateRecordView| without_default(row, doc_type, agency)),
            doc_type,
            agency,
        ) == Seq::<TemplateRecordView>::empty(),
{
    let f = |row: TemplateRecordView| without_default(row, doc_type, agency);
    let condition = |row: TemplateRecordView|
        template_in_scope(row, doc_type, agency) && row.is_default;
    let mapped = rows.map_values(f);
    assert forall|i: int| 0 <= i < mapped.len() implies !condition(#[trigger] mapped[i]) by {
        assert(mapped[i] == f(rows[i]));
    }
    lemma_where_true_empty(mapped, condition);
}

/// A template that is registered as the default is the only default of its kind
/// and agency, and it is what was registered.
pub proof fn law_new_default_is_the_default(
    states: Seq<Tables>,
    before: Seq<Event>,
    after: Seq<Event>,
    record: NewTemplateRecord<'_>,
    id: i64,
)
    requires
        ran(states, after),
        template_created(before, after, record, Ok(id)),
        record.is_default,
    ensures
        defaults_in(
            after_events(states, after.len()).templates,
            record.doc_type@,
            opt_str(record.agency),
        ) == seq![registered(record, id)],
{
    let n = before.len() as int;
    let scope = opt_str(record.agency);
    let between = after.take(n + 1);
    assert(between.last() == after[n]);
    assert(obeys(states[n], after[n], states[n + 1]));
    lemma_unset(states[n], after[n], states[n + 1], record.doc_type@, scope);
    lemma_template_inserted(states, between, after, template_args(record), Ok(id));
    let cleared = states[n + 1].rows.templates;
    lemma_no_default_left(states[n].rows.templates, record.doc_type@, scope);
    let row = inserted_template(template_args(record), id);
    assert(row == registered(record, id));
    let now = after_events(states, after.len()).templates;
    assert(now.drop_last() =~= cleared);
    assert(now.last() == row);
    assert(defaults_in(now, record.doc_type@, scope) =~= seq![row]);
}

/// What is read from the cells of a template.
proof fn lemma_template_fits(row: TemplateRecordView)
    ensures
        row_fault(template_cells(row), <TemplateRecord as Record>::shape()) is None,
        <TemplateRecord as Record>::of_row(template_cells(row)) == row,
{
    let cells = template_cells(row);
    let shape = <TemplateRecord as Record>::shape();
    assert(column_fits(cells, shape, 0));
    assert(column_fits(cells, shape, 1));
    assert(column_fits(cells, shape, 2));
    assert(column_fits(cells, shape, 3));
    assert(column_fits(cells, shape, 4));
    assert(column_fits(cells, shape, 5));
    assert(row_fault_from(cells, shape, 6) is None);
    assert(row_fault_from(cells, shape, 5) is None);
    assert(row_fault_from(cells, shape, 4) is None);
    assert(row_fault_from(cells, shape, 3) is None);
    assert(row_fault_from(cells, shape, 2) is None);
    assert(row_fault_from(cells, shape, 1) is None);
    assert(row_fault_from(cells, shape, 0) is None);
}

/// The first of a list of templates, read from an answer.
proof fn lemma_template_answer(list: Seq<TemplateRecordView>)
    ensures
        first_of::<TemplateRecord>(
            Ok(list.map_values(|row: TemplateRecordView| template_cells(row))),
        ) == Ok::<Option<TemplateRecordView>, Fault>(
            if list.len() == 0 {
                None
            } else {
                Some(list[0])
            },
        ),
{
    if list.len() > 0 {
        let rows = list.map_values(|row: TemplateRecordView| template_cells(row));
        assert(rows[0] == template_cells(list[0]));
        lemma_template_fits(list[0]);
    }
}

/// Templates are listed as they are registered, the last first: those of a kind,
/// if one is named, and of an agency, if one is named.
pub proof fn law_templates_are_listed(
    states: Seq<Tables>,
    before: Seq<Event>,
    after: Seq<Event>,
    doc_type: Option<Seq<char>>,
    agency: Option<Seq<char>>,
)
    requires
        ran(states, after),
        asked(
            before,
            after,
            templates_sql(doc_type, agency),
            templates_args(doc_type, agency),
        ),
        answer(after) is Ok,
    ensures
        all_of::<TemplateRecord>(answer(after)) == Ok::<Seq<TemplateRecordView>, Fault>(
            newest_first(
                after_events(states, before.len()).templates,
                listed_template(doc_type, agency),
            ),
        ),
{
    let n = before.len() as int;
    assert(after[n] == after.last());
    assert(obeys(states[n], after[n], states[n + 1]));
    let list = newest_first(states[n].rows.templates, listed_template(doc_type, agency));
    let cells = |row: TemplateRecordView| template_cells(row);
    let meaning = |row: TemplateRecordView| row;
    let args = templates_args(doc_type, agency);
    assert(answer(after)->Ok_0 == template_list(states[n].rows.templates, doc_type, agency));
    assert forall|i: int| 0 <= i < list.len() implies row_fault(
        cells(#[trigger] list[i]),
        <TemplateRecord as Record>::shape(),
    ) is None && <TemplateRecord as Record>::of_row(cells(list[i])) == meaning(list[i]) by {
        lemma_template_fits(list[i]);
    }
    lemma_all_read::<TemplateRecord, TemplateRecordView>(list, cells, meaning);
    assert(list.map_values(meaning) =~= list);
}

/// The default template of a kind for an agency: that of the agency, and where
/// it has none or none is named, the central one.
pub open spec fn effective_default(
    rows: Seq<TemplateRecordView>,
    doc_type: Seq<char>,
    agency: Option<Seq<char>>,
) -> Option<TemplateRecordView> {
    let own = defaults_in(rows, doc_type, agency);
    let central = defaults_in(rows, doc_type, None);
    if own.len() > 0 {
        Some(own[0])
    } else if central.len() > 0 {
        Some(central[0])
    } else {
        None
    }
}

/// What comes of one question for a default template.
proof fn lemma_default_answer(
    state: Tables,
    event: Event,
    after: Tables,
    doc_type: Seq<char>,
    agency: Option<Seq<char>>,
)
    requires
        obeys(state, event, after),
        event matches Event::Query { sql, args, rows } && sql == default_sql(agency) && args
            == scope_args(doc_type, agency) && rows is Ok,
    ensures
        first_of::<TemplateRecord>(event->Query_rows) == Ok::<Option<TemplateRecordView>, Fault>(
            if defaults_in(state.rows.templates, doc_type, agency).len() == 0 {
                None
            } else {
                Some(defaults_in(state.rows.templates, doc_type, agency)[0])
            },
        ),
{
    lemma_template_answer(defaults_in(state.rows.templates, doc_type, agency));
}

/// The default of the agency comes before the central default, which comes where
/// the agency has none.
pub proof fn law_agency_default_comes_first(
    states: Seq<Tables>,
    before: Seq<Event>,
    after: Seq<Event>,
    doc_type: Seq<char>,
    agency: Option<Seq<char>>,
    result: Result<Option<TemplateRecordView>, Fault>,
)
    requires
        ran(states, after),
        default_resolved(before, after, doc_type, agency, result),
        forall|i: int|
            before.len() <= i < after.len() ==> (#[trigger] after[i])->Query_rows is Ok,
    ensures
        result == Ok::<Option<TemplateRecordView>, Fault>(
            effective_default(after_events(states, before.len()).templates, doc_type, agency),
        ),
{
    let n = before.len() as int;
    let of_agency = after.take(n + 1);
    assert(of_agency.last() == after[n]);
    assert(obeys(states[n], after[n], states[n + 1]));
    let rows = states[n].rows.templates;
    if agency is None {
        assert(after.last() == after[n]);
        lemma_default_answer(states[n], after[n], states[n + 1], doc_type, None);
    } else {
        lemma_default_answer(states[n], after[n], states[n + 1], doc_type, agency);
        if defaults_in(rows, doc_type, agency).len() == 0 {
            assert(after.last() == after[n + 1]);
            assert(obeys(states[n + 1], after[n + 1], states[n + 2]));
            lemma_default_answer(states[n + 1], after[n + 1], states[n + 2], doc_type, None);
        }
    }
}

/// A template that was just registered as the default is what is found when the
/// default of its kind and agency is asked for.
pub proof fn law_new_default_is_resolved(
    states: Seq<Tables>,
    before: Seq<Event>,
    kept: Seq<Event>,
    after: Seq<Event>,
    record: NewTemplateRecord<'_>,
    id: i64,
    result: Result<Option<TemplateRecordView>, Fault>,
)
    requires
        ran(states, after),
        template_created(before, kept, record, Ok(id)),
        record.is_default,
        default_resolved(kept, after, record.doc_type@, opt_str(record.agency), result),
        forall|i: int|
            kept.len() <= i < after.len() ==> (#[trigger] after[i])->Query_rows is Ok,
    ensures
        result == Ok::<Option<TemplateRecordView>, Fault>(Some(registered(record, id))),
{
    let n = kept.len() as int;
    assert(after.take(n) =~= kept) by {
        assert(after.take(n + 1).drop_last() =~= after.take(n));
        assert(after.drop_last().take(n) =~= after.take(n));
    }
    lemma_ran_part(states, after, n);
    let held = states.take(n + 1);
    law_new_default_is_the_default(held, before, kept, record, id);
    assert(after_events(held, kept.len()) == after_events(states, kept.len()));
    law_agency_default_comes_first(
        states,
        kept,
        after,
        record.doc_type@,
        opt_str(record.agency),
        result,
    );
}

// ---------------------------------------------------------------------------
// Laws of examples
// ---------------------------------------------------------------------------

/// The fields in an answer.
proof fn lemma_fields_fit(text: Seq<char>)
    ensures
        row_fault(seq![CellView::Text(text)], <String as Record>::shape()) is None,
{
    let cells = seq![CellView::Text(text)];
    let shape = <String as Record>::shape();
    assert(column_fits(cells, shape, 0));
    assert(row_fault_from(cells, shape, 1) is None);
    assert(row_fault_from(cells, shape, 0) is None);
}

/// Whether an example is the one that was kept last.
pub open spec fn last_example(rows: Rows, row: MemoryRow) -> bool {
    &&& rows.memory.len() > 0
    &&& rows.memory.last() == row
    &&& forall|i: int|
        0 <= i < rows.memory.len() - 1 ==> (#[trigger] rows.memory[i]).id < row.id
}

/// What comes of the statement that keeps an example.
proof fn lemma_example_inserted(
    states: Seq<Tables>,
    before: Seq<Event>,
    after: Seq<Event>,
    args: Seq<ArgView>,
    id: i64,
)
    requires
        ran(states, after),
        inserted(before, after, STORE_MEMORY@, args, Ok(id)),
    ensures
        after_events(states, after.len()).memory == after_events(
            states,
            before.len(),
        ).memory.push(inserted_example(args, id)),
        last_example(after_events(states, after.len()), inserted_example(args, id)),
        states.last().saved == states[before.len() as int].saved,
{
    let n = before.len() as int;
    assert(after[n] == after.drop_last().last());
    assert(after[n + 1] == after.last());
    assert(obeys(states[n], after[n], states[n + 1]));
    assert(obeys(states[n + 1], after[n + 1], states[n + 2]));
    let was = states[n].rows.memory;
    let now = states[n + 2].rows.memory;
    assert forall|i: int| 0 <= i < now.len() - 1 implies (#[trigger] now[i]).id < id by {
        assert(now[i] == was[i]);
    }
}

/// The example that was kept last is what is found under its number.
proof fn lemma_last_example_is_found(
    states: Seq<Tables>,
    before: Seq<Event>,
    after: Seq<Event>,
    row: MemoryRow,
    fields: JsonView,
)
    requires
        ran(states, after),
        last_example(after_events(states, before.len()), row),
        row.fields_json == json_text(fields),
        parsed_json(json_text(fields)) == Some(fields),
        asked(before, after, MEMORY_FIELDS@, seq![ArgView::Integer(row.id)]),
        answer(after) is Ok,
    ensures
        fields_option(answer(after)) == Ok::<Option<JsonView>, Fault>(Some(fields)),
{
    let n = before.len() as int;
    let rows = states[n].rows.memory;
    let condition = |r: MemoryRow| r.id == row.id;
    let older = rows.drop_last();
    assert forall|i: int| 0 <= i < older.len() implies !condition(#[trigger] older[i]) by {
        assert(older[i] == rows[i]);
    }
    lemma_where_true_empty(older, condition);
    assert(where_true(rows, condition) =~= seq![row]);
    assert(after[n] == after.last());
    assert(obeys(states[n], after[n], states[n + 1]));
    let given = answer(after)->Ok_0;
    assert(given =~= seq![fields_cells(row)]);
    lemma_fields_fit(row.fields_json);
}

/// The fields of an example are read back as they were kept.
pub proof fn law_example_is_read_back(
    states: Seq<Tables>,
    before: Seq<Event>,
    kept: Seq<Event>,
    after: Seq<Event>,
    args: Seq<ArgView>,
    fields: JsonView,
    id: i64,
)
    requires
        ran(states, after),
        inserted(before, kept, STORE_MEMORY@, args, Ok(id)),
        args.len() == 8,
        args[2] == ArgView::Text(json_text(fields)),
        parsed_json(json_text(fields)) == Some(fields),
        asked(kept, after, MEMORY_FIELDS@, seq![ArgView::Integer(id)]),
        answer(after) is Ok,
    ensures
        fields_option(answer(after)) == Ok::<Option<JsonView>, Fault>(Some(fields)),
{
    let n = kept.len() as int;
    lemma_ran_part(states, after, n);
    assert(after.take(n) =~= kept);
    let held = states.take(n + 1);
    lemma_example_inserted(held, before, kept, args, id);
    assert(after_events(held, kept.len()) == after_events(states, kept.len()));
    lemma_last_example_is_found(states, kept, after, inserted_example(args, id), fields);
}

/// What the values are that a list of texts holds.
proof fn lemma_parsed_all(list: Seq<Seq<char>>)
    ensures
        parsed_all(list) matches Ok(values) ==> values.len() == list.len() && forall|i: int|
            0 <= i < list.len() ==> parsed_json(#[trigger] list[i]) == Some(values[i]),
    decreases list.len(),
{
    if list.len() > 0 {
        lemma_parsed_all(list.drop_last());
        if parsed_all(list) is Ok {
            let values = parsed_all(list)->Ok_0;
            let before = parsed_all(list.drop_last())->Ok_0;
            assert forall|i: int| 0 <= i < list.len() implies parsed_json(#[trigger] list[i])
                == Some(values[i]) by {
                if i < list.len() - 1 {
                    assert(list.drop_last()[i] == list[i]);
                }
            }
        }
    }
}

/// The texts of the examples of a kind that were kept last, the last first, at
/// most `limit` of them where that is not negative.
pub open spec fn recent_texts(rows: Rows, doc_type: Seq<char>, limit: i64) -> Seq<Seq<char>> {
    latest(rows.memory, |row: MemoryRow| row.doc_type == doc_type, limit).map_values(
        |row: MemoryRow| row.fields_json,
    )
}

/// The recent examples of a kind are read as they are kept, the last first.
pub proof fn law_recent_examples_are_read(
    states: Seq<Tables>,
    before: Seq<Event>,
    after: Seq<Event>,
    doc_type: Seq<char>,
    limit: i64,
)
    requires
        ran(states, after),
        asked(
            before,
            after,
            RECENT_OF_TYPE@,
            seq![ArgView::Text(doc_type), ArgView::Integer(limit)],
        ),
        answer(after) is Ok,
    ensures
        fields_list(answer(after)) == parsed_all(
            recent_texts(after_events(states, before.len()), doc_type, limit),
        ),
{
    let n = before.len() as int;
    assert(after[n] == after.last());
    assert(obeys(states[n], after[n], states[n + 1]));
    let rows = states[n].rows.memory;
    let list = latest(rows, |row: MemoryRow| row.doc_type == doc_type, limit);
    let cells = |row: MemoryRow| fields_cells(row);
    let meaning = |row: MemoryRow| row.fields_json;
    assert(answer(after)->Ok_0 =~= list.map_values(cells));
    assert forall|i: int| 0 <= i < list.len() implies row_fault(
        cells(#[trigger] list[i]),
        <String as Record>::shape(),
    ) is None && <String as Record>::of_row(cells(list[i])) == meaning(list[i]) by {
        lemma_fields_fit(list[i].fields_json);
    }
    lemma_all_read::<String, MemoryRow>(list, cells, meaning);
    assert(list.map_values(meaning) =~= recent_texts(states[n].rows, doc_type, limit));
}

/// The example that was kept last is the first of the recent examples of its
/// kind.
proof fn lemma_last_example_is_recent(
    states: Seq<Tables>,
    before: Seq<Event>,
    after: Seq<Event>,
    row: MemoryRow,
    fields: JsonView,
    limit: i64,
)
    requires
        ran(states, after),
        last_example(after_events(states, before.len()), row),
        row.fields_json == json_text(fields),
        parsed_json(json_text(fields)) == Some(fields),
        limit > 0,
        asked(
            before,
            after,
            RECENT_OF_TYPE@,
            seq![ArgView::Text(row.doc_type), ArgView::Integer(limit)],
        ),
    ensures
        fields_list(answer(after)) matches Ok(list) ==> 0 < list.len() <= limit && list[0]
            == fields,
{
    if answer(after) is Ok {
        law_recent_examples_are_read(states, before, after, row.doc_type, limit);
        let rows = after_events(states, before.len());
        let condition = |r: MemoryRow| r.doc_type == row.doc_type;
        let chosen = where_true(rows.memory, condition);
        assert(chosen.len() > 0 && chosen.last() == row);
        assert(latest(rows.memory, condition, limit)[0] == row);
        let texts = recent_texts(rows, row.doc_type, limit);
        assert(texts[0] == row.fields_json);
        lemma_parsed_all(texts);
    }
}

/// An example that was just kept is the first of the recent examples of its
/// kind.
pub proof fn law_new_example_comes_first(
    states: Seq<Tables>,
    before: Seq<Event>,
    kept: Seq<Event>,
    after: Seq<Event>,
    args: Seq<ArgView>,
    doc_type: Seq<char>,
    fields: JsonView,
    id: i64,
    limit: i64,
)
    requires
        ran(states, after),
        inserted(before, kept, STORE_MEMORY@, args, Ok(id)),
        args.len() == 8,
        args[0] == ArgView::Text(doc_type),
        args[2] == ArgView::Text(json_text(fields)),
        parsed_json(json_text(fields)) == Some(fields),
        limit > 0,
        asked(
            kept,
            after,
            RECENT_OF_TYPE@,
            seq![ArgView::Text(doc_type), ArgView::Integer(limit)],
        ),
    ensures
        fields_list(answer(after)) matches Ok(list) ==> 0 < list.len() <= limit && list[0]
            == fields,
{
    let n = kept.len() as int;
    lemma_ran_part(states, after, n);
    assert(after.take(n) =~= kept);
    let held = states.take(n + 1);
    lemma_example_inserted(held, before, kept, args, id);
    assert(after_events(held, kept.len()) == after_events(states, kept.len()));
    lemma_last_example_is_recent(
        states,
        kept,
        after,
        inserted_example(args, id),
        fields,
        limit,
    );
}

/// What is read from the cells of an example with a vector.
proof fn lemma_vector_fits(row: MemoryRow)
    requires
        row.embedding is Some,
    ensures
        row_fault(vector_cells(row), <(i64, String) as Record>::shape()) is None,
        <(i64, String) as Record>::of_row(vector_cells(row)) == (row.id, row.embedding->0),
        row_fault(kind_and_vector_cells(row), <(i64, String, String) as Record>::shape()) is None,
        <(i64, String, String) as Record>::of_row(kind_and_vector_cells(row)) == (
            row.id,
            row.doc_type,
            row.embedding->0,
        ),
{
    let cells = vector_cells(row);
    let shape = <(i64, String) as Record>::shape();
    assert(column_fits(cells, shape, 0));
    assert(column_fits(cells, shape, 1));
    assert(row_fault_from(cells, shape, 2) is None);
    assert(row_fault_from(cells, shape, 1) is None);
    assert(row_fault_from(cells, shape, 0) is None);
    let cells = kind_and_vector_cells(row);
    let shape = <(i64, String, String) as Record>::shape();
    assert(column_fits(cells, shape, 0));
    assert(column_fits(cells, shape, 1));
    assert(column_fits(cells, shape, 2));
    assert(row_fault_from(cells, shape, 3) is None);
    assert(row_fault_from(cells, shape, 2) is None);
    assert(row_fault_from(cells, shape, 1) is None);
    assert(row_fault_from(cells, shape, 0) is None);
}

/// All examples of a list that holds the examples with vectors have one.
proof fn lemma_listed_have_vectors(
    list: Seq<MemoryRow>,
    rows: Seq<MemoryRow>,
    doc_type: Option<Seq<char>>,
)
    requires
        same_rows(list, where_true(rows, has_vector(doc_type))),
    ensures
        forall|i: int| 0 <= i < list.len() ==> (#[trigger] list[i]).embedding is Some,
{
    let chosen = where_true(rows, has_vector(doc_type));
    lemma_where_true_holds(rows, has_vector(doc_type));
    assert forall|i: int| 0 <= i < list.len() implies (#[trigger] list[i]).embedding is Some by {
        lemma_same_rows_members(list, chosen, i);
        let k = choose|k: int| 0 <= k < chosen.len() && chosen[k] == list[i];
        assert(has_vector(doc_type)(chosen[k]));
    }
}

/// The vectors of examples are read as they are kept: those of all examples that
/// have one, or of all such examples of a kind, and no others.
pub proof fn law_vectors_are_read(
    states: Seq<Tables>,
    before: Seq<Event>,
    after: Seq<Event>,
    doc_type: Option<Seq<char>>,
) -> (list: Seq<MemoryRow>)
    requires
        ran(states, after),
        match doc_type {
            Some(t) => asked(before, after, EMBEDDINGS_OF_TYPE@, seq![ArgView::Text(t)]),
            None => asked(before, after, EMBEDDINGS@, Seq::empty()),
        },
        answer(after) is Ok,
    ensures
        same_rows(
            list,
            where_true(after_events(states, before.len()).memory, has_vector(doc_type)),
        ),
        all_of::<(i64, String)>(answer(after)) == Ok::<Seq<(i64, Seq<char>)>, Fault>(
            list.map_values(|row: MemoryRow| (row.id, row.embedding->0)),
        ),
{
    let n = before.len() as int;
    assert(after[n] == after.last());
    assert(obeys(states[n], after[n], states[n + 1]));
    let rows = states[n].rows.memory;
    let cells = |row: MemoryRow| vector_cells(row);
    let meaning = |row: MemoryRow| (row.id, row.embedding->0);
    let given = answer(after)->Ok_0;
    let list = choose|list: Seq<MemoryRow>| #[trigger]
        same_rows(list, where_true(rows, has_vector(doc_type))) && given == list.map_values(
            |row: MemoryRow| vector_cells(row),
        );
    lemma_listed_have_vectors(list, rows, doc_type);
    assert forall|i: int| 0 <= i < list.len() implies row_fault(
        cells(#[trigger] list[i]),
        <(i64, String) as Record>::shape(),
    ) is None && <(i64, String) as Record>::of_row(cells(list[i])) == meaning(list[i]) by {
        lemma_vector_fits(list[i]);
    }
    lemma_all_read::<(i64, String), MemoryRow>(list, cells, meaning);
    list
}

/// The vectors that an index is made from are those of all examples that have
/// one, each with its kind, and no others.
pub proof fn law_index_is_made_from_all_vectors(
    states: Seq<Tables>,
    before: Seq<Event>,
    after: Seq<Event>,
) -> (list: Seq<MemoryRow>)
    requires
        ran(states, after),
        asked(before, after, VECTORS@, Seq::empty()),
        answer(after) is Ok,
    ensures
        same_rows(
            list,
            where_true(after_events(states, before.len()).memory, has_vector(None)),
        ),
        all_of::<(i64, String, String)>(answer(after)) == Ok::<
            Seq<(i64, Seq<char>, Seq<char>)>,
            Fault,
        >(list.map_values(|row: MemoryRow| (row.id, row.doc_type, row.embedding->0))),
{
    let n = before.len() as int;
    assert(after[n] == after.last());
    assert(obeys(states[n], after[n], states[n + 1]));
    let rows = states[n].rows.memory;
    let cells = |row: MemoryRow| kind_and_vector_cells(row);
    let meaning = |row: MemoryRow| (row.id, row.doc_type, row.embedding->0);
    let given = answer(after)->Ok_0;
    let list = choose|list: Seq<MemoryRow>| #[trigger]
        same_rows(list, where_true(rows, has_vector(None))) && given == list.map_values(
            |row: MemoryRow| kind_and_vector_cells(row),
        );
    lemma_listed_have_vectors(list, rows, None);
    assert forall|i: int| 0 <= i < list.len() implies row_fault(
        cells(#[trigger] list[i]),
        <(i64, String, String) as Record>::shape(),
    ) is None && <(i64, String, String) as Record>::of_row(cells(list[i])) == meaning(list[i]) by {
        lemma_vector_fits(list[i]);
    }
    lemma_all_read::<(i64, String, String), MemoryRow>(list, cells, meaning);
    list
}

// ---------------------------------------------------------------------------
// Laws of opening
// ---------------------------------------------------------------------------

/// What a database leaves in its file: the rows, without what was done in a
/// transaction that was not committed.
pub open spec fn committed(tables: Tables) -> Rows {
    match tables.saved {
        Some(rows) => rows,
        None => tables.rows,
    }
}

/// Whether two histories are of connections to the database in one file, the
/// second of which was opened on what the first had left there.
pub open spec fn same_file(
    first: Seq<Tables>,
    history: Seq<Event>,
    second: Seq<Tables>,
    later: Seq<Event>,
    path: Seq<char>,
) -> bool {
    &&& ran(first, history)
    &&& history.len() > 0
    &&& history[0] == Event::Opened(Some(path))
    &&& ran(second, later)
    &&& later.len() > 0
    &&& later[0] == Event::Opened(Some(path))
    &&& second[0].rows == committed(first.last())
    &&& second[0].saved is None
}

/// Adding columns does not change the rows.
proof fn lemma_columns_added(states: Seq<Tables>, history: Seq<Event>, count: int)
    requires
        ran(states, history),
        0 <= count <= added_columns().len(),
        2 + count <= history.len(),
        forall|i: int|
            0 <= i < count ==> adds_column(#[trigger] history[2 + i], added_columns()[i]),
    ensures
        states[2 + count].rows == states[2].rows,
        states[2 + count].saved == states[2].saved,
    decreases count,
{
    if count > 0 {
        lemma_columns_added(states, history, count - 1);
        let k = 2 + (count - 1);
        assert(adds_column(history[k], added_columns()[count - 1]));
        assert(added_columns().contains(added_columns()[count - 1]));
        assert(obeys(states[k], history[k], states[k + 1]));
    }
}

/// Opening a store does not change what its database holds.
pub proof fn law_opening_changes_nothing(
    states: Seq<Tables>,
    history: Seq<Event>,
    path: Option<Seq<char>>,
    opened: Seq<Event>,
)
    requires
        ran(states, history),
        migrated(seq![Event::Opened(path)], opened, Ok(())),
        opened.len() <= history.len(),
        history.take(opened.len() as int) == opened,
    ensures
        after_events(states, opened.len()) == states[0].rows,
        states[opened.len() as int].saved == states[0].saved,
{
    let added = added_columns();
    assert forall|i: int| 0 <= i < opened.len() implies #[trigger] history[i] == opened[i] by {
        assert(history.take(opened.len() as int)[i] == history[i]);
    }
    assert(opened.take(1)[0] == opened[0]);
    assert(history[0] == Event::Opened(path));
    assert(obeys(states[0], history[0], states[1]));
    assert(obeys(states[1], history[1], states[2]));
    assert forall|i: int| 0 <= i < added.len() implies adds_column(
        #[trigger] history[2 + i],
        added[i],
    ) by {
        assert(adds_column(opened[1 + 1 + i], added[i]));
    }
    lemma_columns_added(states, history, added.len() as int);
}

/// A store in memory begins with nothing.
pub proof fn law_store_in_memory_begins_empty(
    states: Seq<Tables>,
    history: Seq<Event>,
    opened: Seq<Event>,
)
    requires
        ran(states, history),
        migrated(seq![Event::Opened(None)], opened, Ok(())),
        opened.len() <= history.len(),
        history.take(opened.len() as int) == opened,
    ensures
        no_rows(after_events(states, opened.len())),
{
    law_opening_changes_nothing(states, history, None, opened);
    assert(opened.take(1)[0] == opened[0]);
    assert(history.take(opened.len() as int)[0] == history[0]);
    assert(obeys(states[0], history[0], states[1]));
}

/// What was kept in a file is there when the store in that file is opened again:
/// all rows of all tables, but for what was done in a transaction that was not
/// committed.
pub proof fn law_reopened_store_holds_the_same(
    first: Seq<Tables>,
    history: Seq<Event>,
    second: Seq<Tables>,
    later: Seq<Event>,
    path: Seq<char>,
    opened: Seq<Event>,
)
    requires
        same_file(first, history, second, later, path),
        migrated(seq![Event::Opened(Some(path))], opened, Ok(())),
        opened.len() <= later.len(),
        later.take(opened.len() as int) == opened,
    ensures
        after_events(second, opened.len()) == committed(first.last()),
{
    law_opening_changes_nothing(second, later, Some(path), opened);
}

/// An example that was kept, outside of a transaction, is found under its number
/// when the store in the same file is opened again.
pub proof fn law_example_survives_reopening(
    first: Seq<Tables>,
    before: Seq<Event>,
    kept: Seq<Event>,
    second: Seq<Tables>,
    opened: Seq<Event>,
    later: Seq<Event>,
    path: Seq<char>,
    args: Seq<ArgView>,
    fields: JsonView,
    id: i64,
)
    requires
        same_file(first, kept, second, later, path),
        inserted(before, kept, STORE_MEMORY@, args, Ok(id)),
        first.last().saved is None,
        args.len() == 8,
        args[2] == ArgView::Text(json_text(fields)),
        parsed_json(json_text(fields)) == Some(fields),
        migrated(seq![Event::Opened(Some(path))], opened, Ok(())),
        asked(opened, later, MEMORY_FIELDS@, seq![ArgView::Integer(id)]),
        answer(later) is Ok,
    ensures
        fields_option(answer(later)) == Ok::<Option<JsonView>, Fault>(Some(fields)),
{
    lemma_example_inserted(first, before, kept, args, id);
    assert(later.take(opened.len() as int) =~= opened);
    law_reopened_store_holds_the_same(first, kept, second, later, path, opened);
    assert(after_events(first, kept.len()) == first.last().rows);
    lemma_last_example_is_found(second, opened, later, inserted_example(args, id), fields);
}

/// An example that was kept, outside of a transaction, is the first of the recent
/// examples of its kind when the store in the same file is opened again.
pub proof fn law_recent_example_survives_reopening(
    first: Seq<Tables>,
    before: Seq<Event>,
    kept: Seq<Event>,
    second: Seq<Tables>,
    opened: Seq<Event>,
    later: Seq<Event>,
    path: Seq<char>,
    args: Seq<ArgView>,
    doc_type: Seq<char>,
    fields: JsonView,
    id: i64,
    limit: i64,
)
    requires
        same_file(first, kept, second, later, path),
        inserted(before, kept, STORE_MEMORY@, args, Ok(id)),
        first.last().saved is None,
        args.len() == 8,
        args[0] == ArgView::Text(doc_type),
        args[2] == ArgView::Text(json_text(fields)),
        parsed_json(json_text(fields)) == Some(fields),
        limit > 0,
        migrated(seq![Event::Opened(Some(path))], opened, Ok(())),
        asked(
            opened,
            later,
            RECENT_OF_TYPE@,
            seq![ArgView::Text(doc_type), ArgView::Integer(limit)],
        ),
    ensures
        fields_list(answer(later)) matches Ok(list) ==> 0 < list.len() <= limit && list[0]
            == fields,
{
    lemma_example_inserted(first, before, kept, args, id);
    assert(later.take(opened.len() as int) =~= opened);
    law_reopened_store_holds_the_same(first, kept, second, later, path, opened);
    assert(after_events(first, kept.len()) == first.last().rows);
    lemma_last_example_is_recent(
        second,
        opened,
        later,
        inserted_example(args, id),
        fields,
        limit,
    );
}

} // verus!
