//! The connection to SQLite: statements with their arguments, the answers, and
//! the history of both.
//!
//! What a database answers depends on what is on disk, so nothing is claimed of
//! it here. What is claimed is that the history of a connection holds the path
//! that it was opened with and every statement that was handed to it, with its
//! arguments and its answer.
use vstd::prelude::*;

use crate::json::Json;
use crate::number::digits;
use crate::number::show_usize;
use crate::text::cat2;
use crate::text::cat3;
use crate::text::opt_str;

verus! {

// ---------------------------------------------------------------------------
// Arguments, cells and the history
// ---------------------------------------------------------------------------

/// An argument of a statement.
#[derive(Debug)]
pub enum SqlArg {
    Null,
    Integer(i64),
    Text(String),
}

/// What an argument of a statement is.
pub enum ArgView {
    Null,
    Integer(i64),
    Text(Seq<char>),
}

/// A cell of an answer.
#[derive(Debug)]
pub enum SqlValue {
    Null,
    Integer(i64),
    Real,
    Text(String),
    Blob,
}

/// What a cell of an answer is.
pub enum CellView {
    Null,
    Integer(i64),
    Real,
    Text(Seq<char>),
    Blob,
}

impl SqlArg {
    pub open spec fn view(&self) -> ArgView {
        match self {
            SqlArg::Null => ArgView::Null,
            SqlArg::Integer(n) => ArgView::Integer(*n),
            SqlArg::Text(s) => ArgView::Text(s@),
        }
    }
}

impl SqlValue {
    pub open spec fn view(&self) -> CellView {
        match self {
            SqlValue::Null => CellView::Null,
            SqlValue::Integer(n) => CellView::Integer(*n),
            SqlValue::Real => CellView::Real,
            SqlValue::Text(s) => CellView::Text(s@),
            SqlValue::Blob => CellView::Blob,
        }
    }
}

/// The arguments of a statement.
pub open spec fn arg_views(args: Seq<SqlArg>) -> Seq<ArgView> {
    Seq::new(args.len(), |i: int| args[i]@)
}

/// The cells of a row.
pub open spec fn cell_views(row: Seq<SqlValue>) -> Seq<CellView> {
    Seq::new(row.len(), |i: int| row[i]@)
}

/// The rows of an answer.
pub open spec fn row_views(rows: Seq<Vec<SqlValue>>) -> Seq<Seq<CellView>> {
    Seq::new(rows.len(), |i: int| cell_views(rows[i]@))
}

/// A text as an argument.
pub open spec fn text_arg(text: Option<Seq<char>>) -> ArgView {
    match text {
        Some(s) => ArgView::Text(s),
        None => ArgView::Null,
    }
}

/// A number as an argument.
pub open spec fn int_arg(n: Option<i64>) -> ArgView {
    match n {
        Some(n) => ArgView::Integer(n),
        None => ArgView::Null,
    }
}

/// Something that a connection was told, and its answer: what came of it, or the
/// text of the error.
pub enum Event {
    /// The connection was opened, to the database in the file at a path or to one
    /// in memory.
    Opened(Option<Seq<char>>),
    /// Statements without arguments, and whether they were carried out.
    Batch { sql: Seq<char>, done: Result<(), Seq<char>> },
    /// A statement, and how many rows it changed if it was carried out.
    Execute { sql: Seq<char>, args: Seq<ArgView>, changed: Result<usize, Seq<char>> },
    /// A question, and the rows of the answer if there was one.
    Query { sql: Seq<char>, args: Seq<ArgView>, rows: Result<Seq<Seq<CellView>>, Seq<char>> },
    /// The number of the row that was inserted last.
    LastInsertRowid(i64),
}

// ---------------------------------------------------------------------------
// The connection
// ---------------------------------------------------------------------------

/// A connection of `rusqlite`.
#[verifier::external_type_specification]
#[verifier::external_body]
pub struct ExConnection(rusqlite::Connection);

/// What came of something that a connection was told.
pub open spec fn told<T>(r: Result<T, String>) -> Result<T, Seq<char>> {
    match r {
        Ok(v) => Ok(v),
        Err(e) => Err(e@),
    }
}

/// What came of a question.
pub open spec fn told_rows(r: Result<Vec<Vec<SqlValue>>, String>) -> Result<
    Seq<Seq<CellView>>,
    Seq<char>,
> {
    match r {
        Ok(rows) => Ok(row_views(rows@)),
        Err(e) => Err(e@),
    }
}

/// An error of `rusqlite`.
#[verifier::external_type_specification]
#[verifier::external_body]
pub struct ExSqliteError(rusqlite::Error);

/// How a connection was opened and what it was told since, with the answers.
pub uninterp spec fn history_of(conn: rusqlite::Connection) -> Seq<Event>;

/// `rusqlite::Connection::open`: a connection to the database in the file at
/// `path`, which has not been told anything. An error comes as its text, of
/// which nothing is stated.
#[verifier::external_body]
pub(crate) fn connect(path: &str) -> (r: Result<rusqlite::Connection, String>)
    ensures
        r matches Ok(conn) ==> history_of(conn) == seq![Event::Opened(Some(path@))],
{
    rusqlite::Connection::open(path).map_err(|e| e.to_string())
}

/// `rusqlite::Connection::open_in_memory`: a connection to a database of its
/// own, which has not been told anything. An error comes as its text, of which
/// nothing is stated.
#[verifier::external_body]
pub(crate) fn connect_in_memory() -> (r: Result<rusqlite::Connection, String>)
    ensures
        r matches Ok(conn) ==> history_of(conn) == seq![Event::Opened(None)],
{
    rusqlite::Connection::open_in_memory().map_err(|e| e.to_string())
}

/// `rusqlite::Connection::execute_batch`: hands the statements to the
/// connection, which enters them and its answer into its history. An error comes
/// as its text. What the answer is, is not stated: it depends on the database.
#[verifier::external_body]
pub(crate) fn run_batch(conn: &mut rusqlite::Connection, sql: &str) -> (r: Result<(), String>)
    ensures
        history_of(*final(conn)) == history_of(*old(conn)).push(
            Event::Batch { sql: sql@, done: told(r) },
        ),
{
    conn.execute_batch(sql).map_err(|e| e.to_string())
}

/// `rusqlite::Connection::execute`: hands the statement and its arguments to
/// the connection, which enters them and its answer into its history. An error
/// comes as its text. What the answer is, is not stated: it depends on the
/// database.
#[verifier::external_body]
pub(crate) fn run_statement(
    conn: &mut rusqlite::Connection,
    sql: &str,
    args: &Vec<SqlArg>,
) -> (r: Result<usize, String>)
    ensures
        history_of(*final(conn)) == history_of(*old(conn)).push(
            Event::Execute { sql: sql@, args: arg_views(args@), changed: told(r) },
        ),
{
    let values = args.iter().map(|arg| match arg {
        SqlArg::Null => rusqlite::types::Value::Null,
        SqlArg::Integer(n) => rusqlite::types::Value::Integer(*n),
        SqlArg::Text(s) => rusqlite::types::Value::Text(s.clone()),
    });
    conn.execute(sql, rusqlite::params_from_iter(values)).map_err(|e| e.to_string())
}

/// `rusqlite::Statement::query_map` on a statement that is prepared for it:
/// hands the question and its arguments to the connection, which enters them
/// and the rows of its answer into its history. An error comes as its text. What
/// the answer is, is not stated: it depends on the database.
#[verifier::external_body]
pub(crate) fn run_query(
    conn: &mut rusqlite::Connection,
    sql: &str,
    args: &Vec<SqlArg>,
) -> (r: Result<Vec<Vec<SqlValue>>, String>)
    ensures
        history_of(*final(conn)) == history_of(*old(conn)).push(
            Event::Query { sql: sql@, args: arg_views(args@), rows: told_rows(r) },
        ),
{
    let values = args.iter().map(|arg| match arg {
        SqlArg::Null => rusqlite::types::Value::Null,
        SqlArg::Integer(n) => rusqlite::types::Value::Integer(*n),
        SqlArg::Text(s) => rusqlite::types::Value::Text(s.clone()),
    });
    let mut statement = conn.prepare(sql).map_err(|e| e.to_string())?;
    let width: usize = statement.column_count();
    let rows = statement.query_map(rusqlite::params_from_iter(values), |row| (0..width).map(
        |i| row_cell(row, i)).collect());
    rows.and_then(|rows| rows.collect()).map_err(|e| e.to_string())
}

/// A row of `rusqlite`.
#[verifier::external_type_specification]
#[verifier::external_body]
pub struct ExRow<'stmt>(rusqlite::Row<'stmt>);

/// `rusqlite::Row::get`: the cell of a row, by the type it has there.
#[verifier::external_body]
fn row_cell(row: &rusqlite::Row<'_>, i: usize) -> Result<SqlValue, rusqlite::Error> {
    Ok(match row.get_ref(i)?.data_type() {
        rusqlite::types::Type::Null => SqlValue::Null,
        rusqlite::types::Type::Integer => SqlValue::Integer(row.get(i)?),
        rusqlite::types::Type::Real => SqlValue::Real,
        rusqlite::types::Type::Text => SqlValue::Text(row.get(i)?),
        rusqlite::types::Type::Blob => SqlValue::Blob,
    })
}

/// `rusqlite::Connection::last_insert_rowid`: the number of the row that was
/// inserted last, which the connection enters into its history.
#[verifier::external_body]
pub(crate) fn inserted_rowid(conn: &mut rusqlite::Connection) -> (r: i64)
    ensures
        history_of(*final(conn)) == history_of(*old(conn)).push(Event::LastInsertRowid(r)),
{
    conn.last_insert_rowid()
}

// ---------------------------------------------------------------------------
// What can go wrong
// ---------------------------------------------------------------------------

/// Why the store could not do what it was asked.
#[derive(Debug)]
pub enum StoreError {
    /// The database refused, and said this.
    Database(String),
    /// A row was expected and there was none.
    NoRow,
    /// A cell does not have the type that its column has.
    Column(String),
    /// A stored text is not JSON, of which the parser said this.
    Json(String),
}

/// Why the store could not do what it was asked.
pub enum Fault {
    Database(Seq<char>),
    NoRow,
    Column(Seq<char>),
    Json(Seq<char>),
}

/// What is said of a failure.
pub open spec fn fault_message(fault: Fault) -> Seq<char> {
    match fault {
        Fault::Database(m) => m,
        Fault::NoRow => "Query returned no rows"@,
        Fault::Column(m) => m,
        Fault::Json(m) => m,
    }
}

impl StoreError {
    pub open spec fn view(&self) -> Fault {
        match self {
            StoreError::Database(m) => Fault::Database(m@),
            StoreError::NoRow => Fault::NoRow,
            StoreError::Column(m) => Fault::Column(m@),
            StoreError::Json(m) => Fault::Json(m@),
        }
    }

    /// What is said of the failure.
    pub fn message(&self) -> (r: String)
        ensures
            r@ == fault_message(self@),
    {
        match self {
            StoreError::Database(m) => m.clone(),
            StoreError::NoRow => "Query returned no rows".to_owned(),
            StoreError::Column(m) => m.clone(),
            StoreError::Json(m) => m.clone(),
        }
    }
}

/// A result with its error viewed.
pub open spec fn outcome_of<T>(r: Result<T, StoreError>) -> Result<T, Fault> {
    match r {
        Ok(v) => Ok(v),
        Err(e) => Err(e@),
    }
}

// ---------------------------------------------------------------------------
// Rows
// ---------------------------------------------------------------------------

/// The types that a column can have.
#[derive(Clone, Copy, Debug, PartialEq, Eq, Structural)]
pub enum Kind {
    Integer,
    Text,
    OptInteger,
    OptText,
}

/// A column of an answer.
#[derive(Debug)]
pub struct Column {
    pub kind: Kind,
    pub name: &'static str,
}

/// What a column of an answer is.
pub struct ColumnView {
    pub kind: Kind,
    pub name: Seq<char>,
}

/// The columns of an answer.
pub open spec fn shape_of(columns: Seq<Column>) -> Seq<ColumnView> {
    Seq::new(columns.len(), |i: int| ColumnView { kind: columns[i].kind, name: columns[i].name@ })
}

/// Whether a cell can stand in a column.
pub open spec fn fits(cell: CellView, kind: Kind) -> bool {
    match kind {
        Kind::Integer => cell is Integer,
        Kind::Text => cell is Text,
        Kind::OptInteger => cell is Integer || cell is Null,
        Kind::OptText => cell is Text || cell is Null,
    }
}

/// The name of the type of a cell.
pub open spec fn cell_type_text(cell: CellView) -> Seq<char> {
    match cell {
        CellView::Null => "Null"@,
        CellView::Integer(_) => "Integer"@,
        CellView::Real => "Real"@,
        CellView::Text(_) => "Text"@,
        CellView::Blob => "Blob"@,
    }
}

/// What is said of a cell that cannot stand in column `i`.
pub open spec fn misfit(row: Seq<CellView>, shape: Seq<ColumnView>, i: int) -> Seq<char> {
    if i < row.len() {
        "Invalid column type "@ + cell_type_text(row[i]) + " at index: "@ + digits(i as nat)
            + ", name: "@ + shape[i].name
    } else {
        "Invalid column index: "@ + digits(i as nat)
    }
}

/// Whether column `i` of a row is as it should be.
pub open spec fn column_fits(row: Seq<CellView>, shape: Seq<ColumnView>, i: int) -> bool {
    i < row.len() && fits(row[i], shape[i].kind)
}

/// What is wrong with the columns of a row from `i` on, if anything is.
pub open spec fn row_fault_from(row: Seq<CellView>, shape: Seq<ColumnView>, i: int) -> Option<
    Fault,
>
    decreases shape.len() - i,
{
    if i >= shape.len() {
        None
    } else if !column_fits(row, shape, i) {
        Some(Fault::Column(misfit(row, shape, i)))
    } else {
        row_fault_from(row, shape, i + 1)
    }
}

/// What is wrong with a row, if anything is.
pub open spec fn row_fault(row: Seq<CellView>, shape: Seq<ColumnView>) -> Option<Fault> {
    row_fault_from(row, shape, 0)
}

/// A row with which nothing is wrong has all its columns as they should be.
pub proof fn lemma_row_fits(row: Seq<CellView>, shape: Seq<ColumnView>, i: int)
    requires
        row_fault_from(row, shape, i) is None,
        0 <= i,
    ensures
        forall|j: int| i <= j < shape.len() ==> #[trigger] column_fits(row, shape, j),
    decreases shape.len() - i,
{
    if i < shape.len() {
        lemma_row_fits(row, shape, i + 1);
    }
}

/// What is wrong with the first row with which something is.
pub open spec fn rows_fault(rows: Seq<Seq<CellView>>, shape: Seq<ColumnView>) -> Option<Fault>
    decreases rows.len(),
{
    if rows.len() == 0 {
        None
    } else {
        match rows_fault(rows.drop_last(), shape) {
            Some(f) => Some(f),
            None => row_fault(rows.last(), shape),
        }
    }
}

/// Rows with which nothing is wrong are each as they should be.
pub proof fn lemma_rows_fit(rows: Seq<Seq<CellView>>, shape: Seq<ColumnView>)
    requires
        rows_fault(rows, shape) is None,
    ensures
        forall|i: int| 0 <= i < rows.len() ==> row_fault(#[trigger] rows[i], shape) is None,
    decreases rows.len(),
{
    if rows.len() > 0 {
        lemma_rows_fit(rows.drop_last(), shape);
        assert forall|i: int| 0 <= i < rows.len() implies row_fault(
            #[trigger] rows[i],
            shape,
        ) is None by {
            if i < rows.len() - 1 {
                assert(rows.drop_last()[i] == rows[i]);
            }
        }
    }
}

/// A fault in the first rows is the fault of all of them.
proof fn lemma_rows_fault_stays(rows: Seq<Seq<CellView>>, shape: Seq<ColumnView>, n: int)
    requires
        0 <= n <= rows.len(),
        rows_fault(rows.take(n), shape) is Some,
    ensures
        rows_fault(rows, shape) == rows_fault(rows.take(n), shape),
    decreases rows.len() - n,
{
    if n < rows.len() {
        assert(rows.take(n + 1).drop_last() =~= rows.take(n));
        lemma_rows_fault_stays(rows, shape, n + 1);
    } else {
        assert(rows.take(n) =~= rows);
    }
}

/// The name of the type of a cell.
fn cell_type(cell: &SqlValue) -> (r: &'static str)
    ensures
        r@ == cell_type_text(cell@),
{
    match cell {
        SqlValue::Null => "Null",
        SqlValue::Integer(_) => "Integer",
        SqlValue::Real => "Real",
        SqlValue::Text(_) => "Text",
        SqlValue::Blob => "Blob",
    }
}

/// Whether a cell can stand in a column.
fn cell_fits(cell: &SqlValue, kind: Kind) -> (r: bool)
    ensures
        r == fits(cell@, kind),
{
    match (kind, cell) {
        (Kind::Integer, SqlValue::Integer(_)) => true,
        (Kind::Text, SqlValue::Text(_)) => true,
        (Kind::OptInteger, SqlValue::Integer(_)) => true,
        (Kind::OptInteger, SqlValue::Null) => true,
        (Kind::OptText, SqlValue::Text(_)) => true,
        (Kind::OptText, SqlValue::Null) => true,
        _ => false,
    }
}

/// Looks whether the columns of a row are as they should be.
pub fn check_row(row: &Vec<SqlValue>, columns: &Vec<Column>) -> (r: Result<(), StoreError>)
    ensures
        match r {
            Ok(_) => row_fault(cell_views(row@), shape_of(columns@)) is None,
            Err(e) => row_fault(cell_views(row@), shape_of(columns@)) == Some(e@),
        },
{
    let ghost cells = cell_views(row@);
    let ghost shape = shape_of(columns@);
    let mut i: usize = 0;
    while i < columns.len()
        invariant
            i <= columns@.len(),
            cells == cell_views(row@),
            shape == shape_of(columns@),
            row_fault(cells, shape) == row_fault_from(cells, shape, i as int),
        decreases columns@.len() - i,
    {
        if i >= row.len() {
            return Err(
                StoreError::Column(cat2("Invalid column index: ", show_usize(i).as_str())),
            );
        }
        if !cell_fits(&row[i], columns[i].kind) {
            let mut m = cat3("Invalid column type ", cell_type(&row[i]), " at index: ");
            m.append(show_usize(i).as_str());
            m.append(", name: ");
            m.append(columns[i].name);
            return Err(StoreError::Column(m));
        }
        assert(column_fits(cells, shape, i as int));
        i += 1;
    }
    Ok(())
}

/// Looks whether all rows are as they should be.
pub fn check_rows(rows: &Vec<Vec<SqlValue>>, columns: &Vec<Column>) -> (r: Result<(), StoreError>)
    ensures
        match r {
            Ok(_) => rows_fault(row_views(rows@), shape_of(columns@)) is None,
            Err(e) => rows_fault(row_views(rows@), shape_of(columns@)) == Some(e@),
        },
{
    let ghost all = row_views(rows@);
    let ghost shape = shape_of(columns@);
    assert(all.take(0) =~= Seq::empty());
    let mut i: usize = 0;
    while i < rows.len()
        invariant
            i <= rows@.len(),
            all == row_views(rows@),
            shape == shape_of(columns@),
            rows_fault(all.take(i as int), shape) is None,
        decreases rows@.len() - i,
    {
        proof {
            assert(all.take(i as int + 1).drop_last() =~= all.take(i as int));
            assert(all.take(i as int + 1).last() == cell_views(rows@[i as int]@));
        }
        match check_row(&rows[i], columns) {
            Ok(_) => {},
            Err(e) => {
                proof {
                    lemma_rows_fault_stays(all, shape, i as int + 1);
                }
                return Err(e);
            },
        }
        i += 1;
    }
    assert(all.take(all.len() as int) =~= all);
    Ok(())
}

/// The number in a cell.
pub open spec fn integer(cell: CellView) -> i64 {
    cell->Integer_0
}

/// The text in a cell.
pub open spec fn text(cell: CellView) -> Seq<char> {
    cell->Text_0
}

/// The number in a cell that may hold none.
pub open spec fn opt_integer(cell: CellView) -> Option<i64> {
    match cell {
        CellView::Integer(n) => Some(n),
        _ => None,
    }
}

/// The text in a cell that may hold none.
pub open spec fn opt_cell_text(cell: CellView) -> Option<Seq<char>> {
    match cell {
        CellView::Text(s) => Some(s),
        _ => None,
    }
}

/// The number in a cell.
pub fn integer_cell(cell: &SqlValue) -> (r: i64)
    requires
        cell@ is Integer,
    ensures
        r == integer(cell@),
{
    match cell {
        SqlValue::Integer(n) => *n,
        _ => 0,
    }
}

/// The text in a cell.
pub fn text_cell(cell: &SqlValue) -> (r: String)
    requires
        cell@ is Text,
    ensures
        r@ == text(cell@),
{
    match cell {
        SqlValue::Text(s) => s.clone(),
        _ => String::new(),
    }
}

/// The number in a cell that may hold none.
pub fn opt_integer_cell(cell: &SqlValue) -> (r: Option<i64>)
    ensures
        r == opt_integer(cell@),
{
    match cell {
        SqlValue::Integer(n) => Some(*n),
        _ => None,
    }
}

/// The text in a cell that may hold none.
pub fn opt_text_cell(cell: &SqlValue) -> (r: Option<String>)
    ensures
        crate::text::opt_text(r) == opt_cell_text(cell@),
{
    match cell {
        SqlValue::Text(s) => Some(s.clone()),
        _ => None,
    }
}

/// A text as an argument.
pub fn arg(text: &str) -> (r: SqlArg)
    ensures
        r@ == ArgView::Text(text@),
{
    SqlArg::Text(text.to_owned())
}

/// A text that may be missing as an argument.
pub fn opt_arg(text: Option<&str>) -> (r: SqlArg)
    ensures
        r@ == text_arg(opt_str(text)),
{
    match text {
        Some(s) => SqlArg::Text(s.to_owned()),
        None => SqlArg::Null,
    }
}

/// A number that may be missing as an argument.
pub fn opt_int_arg(n: Option<i64>) -> (r: SqlArg)
    ensures
        r@ == int_arg(n),
{
    match n {
        Some(n) => SqlArg::Integer(n),
        None => SqlArg::Null,
    }
}

} // verus!
